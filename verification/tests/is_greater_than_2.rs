use liblumen_alloc::atom::Atom;
use liblumen_alloc::erlang::is_greater_than_2;
use liblumen_alloc::heap::Heap;
use liblumen_alloc::number::SmallInteger;
use liblumen_alloc::term::Term;

fn run_is_greater_than<L, R>(left: L, right: R, expected: bool)
where
    L: FnOnce(&mut Heap) -> Term,
    R: FnOnce(Term, &mut Heap) -> Term,
{
    let mut heap = Heap::new(1024);
    let left = left(&mut heap);
    let right = right(left.duplicate(), &mut heap);

    assert_eq!(is_greater_than_2(&left, &right), Term::from_bool(expected));
}

fn is_greater_than<R>(right: R, expected: bool)
where
    R: FnOnce(Term, &mut Heap) -> Term,
{
    run_is_greater_than(
        |process| process.float(1.0f64.to_bits()).unwrap(),
        right,
        expected,
    );
}

#[test]
fn with_greater_small_integer_right_returns_true() {
    is_greater_than(|_, process| process.integer(-1).unwrap(), true)
}

#[test]
fn with_greater_small_integer_right_returns_false() {
    is_greater_than(|_, process| process.integer(1).unwrap(), false)
}

#[test]
fn with_greater_big_integer_right_returns_true() {
    is_greater_than(
        |_, process| process.integer(SmallInteger::MIN_VALUE - 1).unwrap(),
        true,
    )
}

#[test]
fn with_greater_big_integer_right_returns_false() {
    is_greater_than(
        |_, process| process.integer(SmallInteger::MAX_VALUE + 1).unwrap(),
        false,
    )
}

#[test]
fn with_greater_float_right_returns_true() {
    is_greater_than(|_, process| process.float((-1.0f64).to_bits()).unwrap(), true)
}

#[test]
fn with_greater_float_right_returns_false() {
    is_greater_than(|_, process| process.float(1.0f64.to_bits()).unwrap(), false)
}

#[test]
fn without_number_returns_false() {
    is_greater_than(|_, _| Atom::str_to_term("atom"), false);
    is_greater_than(|_, _| Term::NIL, false);
    is_greater_than(|_, process| process.tuple_from_slice(&[]).unwrap(), false);
    is_greater_than(|_, process| process.binary_from_bytes(&[1]).unwrap(), false);
}

#[test]
fn float_and_integer_compare_by_exact_value() {
    // 2^53 + 1 is an integer that no float holds: it lies strictly between
    // the floats 2^53 and 2^53 + 2.
    let mut heap = Heap::new(1024);
    let integer = heap.integer((1i64 << 53) + 1).unwrap();
    let below = heap.float(9007199254740992.0f64.to_bits()).unwrap();
    let above = heap.float(9007199254740994.0f64.to_bits()).unwrap();
    assert_eq!(is_greater_than_2(&integer, &below), Term::from_bool(true));
    assert_eq!(is_greater_than_2(&above, &integer), Term::from_bool(true));
    assert_eq!(is_greater_than_2(&below, &integer), Term::from_bool(false));

    let half = heap.float(0.5f64.to_bits()).unwrap();
    let zero = heap.integer(0).unwrap();
    let one = heap.integer(1).unwrap();
    assert_eq!(is_greater_than_2(&half, &zero), Term::from_bool(true));
    assert_eq!(is_greater_than_2(&one, &half), Term::from_bool(true));

    let tiny = heap.float(f64::MIN_POSITIVE.to_bits()).unwrap();
    assert_eq!(is_greater_than_2(&tiny, &zero), Term::from_bool(true));
    let huge = heap.float(f64::MAX.to_bits()).unwrap();
    let big = heap.integer(i64::MAX).unwrap();
    assert_eq!(is_greater_than_2(&huge, &big), Term::from_bool(true));
    let lowest = heap.float(f64::MIN.to_bits()).unwrap();
    let small = heap.integer(i64::MIN).unwrap();
    assert_eq!(is_greater_than_2(&small, &lowest), Term::from_bool(true));
}
