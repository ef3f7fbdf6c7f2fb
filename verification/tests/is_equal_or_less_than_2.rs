use liblumen_alloc::erlang::is_equal_or_less_than_2;
use liblumen_alloc::heap::Heap;
use liblumen_alloc::term::Term;

fn run_is_equal_or_less_than<L, R>(left: L, right: R, expected: bool)
where
    L: FnOnce(&mut Heap) -> Term,
    R: FnOnce(Term, &mut Heap) -> Term,
{
    let mut heap = Heap::new(1024);
    let left = left(&mut heap);
    let right = right(left.duplicate(), &mut heap);

    assert_eq!(
        is_equal_or_less_than_2(&left, &right),
        Term::from_bool(expected)
    );
}

fn is_equal_or_less_than<R>(right: R, expected: bool)
where
    R: FnOnce(Term, &mut Heap) -> Term,
{
    run_is_equal_or_less_than(
        |process| {
            let head = process.integer(0).unwrap();
            let tail = process.integer(1).unwrap();
            process.cons(head, tail).unwrap()
        },
        right,
        expected,
    );
}

#[test]
fn with_empty_list_right_returns_false() {
    is_equal_or_less_than(|_, _| Term::NIL, false);
}

#[test]
fn with_lesser_list_right_returns_false() {
    is_equal_or_less_than(
        |_, process| {
            let head = process.integer(0).unwrap();
            let tail = process.integer(0).unwrap();
            process.cons(head, tail).unwrap()
        },
        false,
    );
}

#[test]
fn with_same_list_right_returns_true() {
    is_equal_or_less_than(|left, _| left, true);
}

#[test]
fn with_same_value_list_right_returns_true() {
    is_equal_or_less_than(
        |_, process| {
            let head = process.integer(0).unwrap();
            let tail = process.integer(1).unwrap();
            process.cons(head, tail).unwrap()
        },
        true,
    );
}

#[test]
fn with_greater_list_right_returns_true() {
    is_equal_or_less_than(
        |_, process| {
            let head = process.integer(0).unwrap();
            let tail = process.integer(2).unwrap();
            process.cons(head, tail).unwrap()
        },
        true,
    );
}

#[test]
fn with_bitstring_right_returns_true() {
    is_equal_or_less_than(|_, process| process.binary_from_bytes(&[]).unwrap(), true);
    is_equal_or_less_than(
        |_, process| {
            let original = process.binary_from_bytes(&[0b1010_1010, 0xff]).unwrap();
            process
                .subbinary_from_original(&original, 0, 3, 1, 2)
                .unwrap()
        },
        true,
    );
}

#[test]
fn without_list_or_bitstring_returns_false() {
    is_equal_or_less_than(|_, process| process.integer(7).unwrap(), false);
    is_equal_or_less_than(|_, process| process.float(1.5f64.to_bits()).unwrap(), false);
    is_equal_or_less_than(|_, _| liblumen_alloc::atom::Atom::str_to_term("right"), false);
    is_equal_or_less_than(|_, process| process.tuple_from_slice(&[]).unwrap(), false);
    is_equal_or_less_than(|_, process| process.map_from_slice(&[]).unwrap(), false);
}
