use liblumen_alloc::atom::Atom;
use liblumen_alloc::erlang::{
    binary_to_float_1, delete_element_2, is_float_1, negate_1, tuple_size_1, tuple_to_list_1,
    Badarg, Badarith, Exception,
};
use liblumen_alloc::heap::Heap;
use liblumen_alloc::number::SmallInteger;
use liblumen_alloc::term::{Pid, Port, Term};

fn not_tuples(heap: &mut Heap) -> Vec<Term> {
    vec![
        heap.integer(1).unwrap(),
        heap.integer(i64::MAX).unwrap(),
        heap.float(1.0f64.to_bits()).unwrap(),
        Atom::str_to_term("tuple"),
        heap.reference(0, 0, 0).unwrap(),
        Term::Port(Port { number: 0 }),
        Pid::make_term(0, 0).unwrap(),
        heap.external_pid(1, 2, 3).unwrap(),
        heap.map_from_slice(&[]).unwrap(),
        Term::NIL,
        heap.list_from_slice(&[Term::NIL]).unwrap(),
        heap.binary_from_bytes(&[1, 2]).unwrap(),
    ]
}

fn not_numbers(heap: &mut Heap) -> Vec<Term> {
    let mut terms = not_tuples(heap);
    terms.retain(|term| !term.is_number());
    terms.push(heap.tuple_from_slice(&[]).unwrap());
    terms
}

#[test]
fn test_without_tuple_errors_badarg() {
    let mut heap = Heap::new(1024);
    let index = heap.integer(1).unwrap();
    for term in not_tuples(&mut heap) {
        assert!(term.is_not_tuple());
        assert_eq!(
            delete_element_2(&mut heap, &index, &term),
            Err(Exception::Badarg(Badarg::NotATuple))
        );
        assert_eq!(
            tuple_size_1(&mut heap, &term),
            Err(Exception::Badarg(Badarg::NotATuple))
        );
        assert_eq!(
            tuple_to_list_1(&mut heap, &term),
            Err(Exception::Badarg(Badarg::NotATuple))
        );
    }
}

#[test]
fn with_tuple_without_integer_between_1_and_the_length_inclusive_errors_badarg() {
    let mut heap = Heap::new(1024);
    let ten = heap.integer(10).unwrap();
    let twenty = heap.integer(20).unwrap();
    let tuple = heap.tuple_from_slice(&[ten, twenty]).unwrap();
    let empty = heap.tuple_from_slice(&[]).unwrap();
    let mut indices = not_numbers(&mut heap);
    for index in [
        0i64,
        -1,
        3,
        4,
        i64::MAX,
        i64::MIN,
        SmallInteger::MAX_VALUE + 1,
    ] {
        indices.push(heap.integer(index).unwrap());
    }
    indices.push(heap.float(1.0f64.to_bits()).unwrap());
    for index in indices {
        assert_eq!(
            delete_element_2(&mut heap, &index, &tuple),
            Err(Exception::Badarg(Badarg::IndexOutOfRange)),
            "{:?}",
            index
        );
        assert_eq!(
            delete_element_2(&mut heap, &index, &empty),
            Err(Exception::Badarg(Badarg::IndexOutOfRange))
        );
    }
    let one = heap.integer(1).unwrap();
    assert_eq!(
        delete_element_2(&mut heap, &one, &empty),
        Err(Exception::Badarg(Badarg::IndexOutOfRange))
    );
}

#[test]
fn with_tuple_with_integer_between_1_and_the_length_inclusive_returns_tuple_without_element() {
    let mut heap = Heap::new(1024);
    let elements = [
        heap.integer(10).unwrap(),
        heap.float(2.5f64.to_bits()).unwrap(),
        Atom::str_to_term("c"),
        Term::NIL,
    ];
    for len in 1..=elements.len() {
        let tuple = heap.tuple_from_slice(&elements[..len]).unwrap();
        for index in 1..=len {
            let mut element_vec: Vec<Term> =
                elements[..len].iter().map(|e| e.duplicate()).collect();
            element_vec.remove(index - 1);
            let expected = heap.tuple_from_slice(&element_vec).unwrap();
            let index = heap.integer(index as i64).unwrap();
            assert_eq!(delete_element_2(&mut heap, &index, &tuple), Ok(expected));
        }
    }
}

#[test]
fn delete_element_of_three_leaves_two() {
    let mut heap = Heap::new(64);
    let ten = heap.integer(10).unwrap();
    let twenty = heap.integer(20).unwrap();
    let thirty = heap.integer(30).unwrap();
    let tuple = heap
        .tuple_from_slice(&[ten.duplicate(), twenty, thirty.duplicate()])
        .unwrap();
    let index = heap.integer(2).unwrap();
    let used = heap.words_used();
    assert_eq!(
        delete_element_2(&mut heap, &index, &tuple),
        Ok(Term::Tuple(vec![ten, thirty]))
    );
    assert_eq!(heap.words_used(), used + 3);
}

#[test]
fn delete_element_needs_room_for_the_shorter_tuple() {
    let mut heap = Heap::new(6);
    let ten = heap.integer(10).unwrap();
    let tuple = heap
        .tuple_from_slice(&[ten.duplicate(), ten.duplicate(), ten.duplicate()])
        .unwrap();
    let index = heap.integer(1).unwrap();
    assert_eq!(heap.words_available(), 2);
    assert_eq!(
        delete_element_2(&mut heap, &index, &tuple),
        Err(Exception::Alloc)
    );
    assert_eq!(heap.words_available(), 2);
}

#[test]
fn with_tuple_returns_arity() {
    let mut heap = Heap::new(1024);
    for size in 0..=3usize {
        let elements: Vec<Term> = (0..size).map(|_| Atom::str_to_term("e")).collect();
        let term = heap.tuple_from_slice(&elements).unwrap();
        assert_eq!(
            tuple_size_1(&mut heap, &term),
            Ok(heap.integer(size as i64).unwrap())
        );
    }
}

#[test]
fn with_tuple_returns_list() {
    let mut heap = Heap::new(1024);
    let all = [
        Atom::str_to_term("a"),
        heap.integer(2).unwrap(),
        heap.float(3.5f64.to_bits()).unwrap(),
    ];
    for len in 0..=3 {
        let element_vec = &all[..len];
        let tuple = heap.tuple_from_slice(element_vec).unwrap();
        let list = heap.list_from_slice(element_vec).unwrap();
        let used = heap.words_used();
        assert_eq!(tuple_to_list_1(&mut heap, &tuple), Ok(list));
        assert_eq!(heap.words_used(), used + 3 * len);
    }
}

#[test]
fn tuple_to_list_of_three_atoms() {
    let mut heap = Heap::new(64);
    let a = Atom::str_to_term("a");
    let b = Atom::str_to_term("b");
    let c = Atom::str_to_term("c");
    let tuple = heap
        .tuple_from_slice(&[a.duplicate(), b.duplicate(), c.duplicate()])
        .unwrap();
    let expected = Term::Cons(
        Box::new(a),
        Box::new(Term::Cons(
            Box::new(b),
            Box::new(Term::Cons(Box::new(c), Box::new(Term::NIL))),
        )),
    );
    assert_eq!(tuple_to_list_1(&mut heap, &tuple), Ok(expected));
}

#[test]
fn without_float_returns_false() {
    let mut heap = Heap::new(1024);
    for term in not_numbers(&mut heap) {
        assert!(term.is_not_float());
        assert_eq!(is_float_1(&term), Term::from_bool(false));
    }
    let integer = heap.integer(1).unwrap();
    assert_eq!(is_float_1(&integer), Term::from_bool(false));
    let big = heap.integer(i64::MAX).unwrap();
    assert_eq!(is_float_1(&big), Atom::str_to_term("false"));
}

#[test]
fn with_float_returns_true() {
    let mut heap = Heap::new(1024);
    for f in [0.0f64, -0.0, 1.0, -1.5, f64::MAX, f64::MIN, 5e-324] {
        let term = heap.float(f.to_bits()).unwrap();
        assert_eq!(is_float_1(&term), Term::from_bool(true));
        assert_eq!(is_float_1(&term), Atom::str_to_term("true"));
    }
}

#[test]
fn without_number_errors_badarith() {
    let mut heap = Heap::new(1024);
    for number in not_numbers(&mut heap) {
        assert!(number.is_not_number());
        assert_eq!(
            negate_1(&mut heap, &number),
            Err(Exception::Badarith(Badarith::NotANumber))
        );
    }
}

#[test]
fn with_integer_returns_integer_of_opposite_sign() {
    let mut heap = Heap::new(1024);
    for i in [
        1i64,
        -1,
        2,
        -1000,
        SmallInteger::MAX_VALUE,
        SmallInteger::MIN_VALUE + 1,
        SmallInteger::MAX_VALUE + 1,
        -SmallInteger::MAX_VALUE - 2,
        i64::MAX,
        -i64::MAX,
    ] {
        let number = heap.integer(i).unwrap();
        let negated = heap.integer(-i).unwrap();
        assert_eq!(negate_1(&mut heap, &number), Ok(negated), "{}", i);
    }
    let zero = heap.integer(0).unwrap();
    assert_eq!(negate_1(&mut heap, &zero), Ok(heap.integer(0).unwrap()));
}

#[test]
fn negate_crosses_between_small_and_big_integers() {
    let mut heap = Heap::new(1024);
    // The least small integer has no small opposite.
    let least = heap.integer(SmallInteger::MIN_VALUE).unwrap();
    assert!(matches!(least, Term::SmallInteger(_)));
    let negated = negate_1(&mut heap, &least).unwrap();
    assert!(matches!(negated, Term::BigInteger(_)));
    assert_eq!(negated, heap.integer(SmallInteger::MAX_VALUE + 1).unwrap());
    let back = negate_1(&mut heap, &negated).unwrap();
    assert_eq!(back, least);

    // The least 64-bit integer has an opposite all the same.
    let min = heap.integer(i64::MIN).unwrap();
    let negated = negate_1(&mut heap, &min).unwrap();
    assert_eq!(negated.to_integer().unwrap().magnitude(), 1u128 << 63);
    assert!(!negated.to_integer().unwrap().is_negative());
    assert_eq!(negate_1(&mut heap, &negated), Ok(min));
}

#[test]
fn with_float_returns_float_of_opposite_sign() {
    let mut heap = Heap::new(1024);
    for f in [1.0f64, -1.0, 1.5, f64::MAX, f64::MIN, 5e-324, -2.5e-300] {
        let number = heap.float(f.to_bits()).unwrap();
        let negated = heap.float((-f).to_bits()).unwrap();
        assert_eq!(negate_1(&mut heap, &number), Ok(negated));
    }
    let zero = heap.float(0.0f64.to_bits()).unwrap();
    assert_eq!(
        negate_1(&mut heap, &zero),
        Ok(heap.float(0.0f64.to_bits()).unwrap())
    );
}

fn parse(bytes: &[u8]) -> Option<u64> {
    std::str::from_utf8(bytes)
        .ok()
        .and_then(|text| text.parse::<f64>().ok())
        .map(f64::to_bits)
}

fn binary_to_float(heap: &mut Heap, binary: &Term) -> Result<Term, Exception> {
    let parsed = match binary.to_bytes() {
        Ok(bytes) => parse(&bytes),
        Err(_) => None,
    };
    binary_to_float_1(heap, binary, parsed)
}

#[test]
fn without_binary_errors_badarg() {
    let mut heap = Heap::new(1024);
    let mut terms = not_tuples(&mut heap);
    terms.retain(|term| !term.is_bitstring());
    terms.push(heap.tuple_from_slice(&[]).unwrap());
    let original = heap.binary_from_bytes(b"3.14").unwrap();
    terms.push(heap.subbinary_from_original(&original, 0, 0, 3, 4).unwrap());
    for binary in terms {
        assert!(binary.is_not_binary());
        assert_eq!(
            binary_to_float(&mut heap, &binary),
            Err(Exception::Badarg(Badarg::NotABinary))
        );
        assert_eq!(
            binary_to_float_1(&mut heap, &binary, Some(0)),
            Err(Exception::Badarg(Badarg::NotABinary))
        );
    }
}

#[test]
fn with_binary_with_integer_errors_badarg() {
    let mut heap = Heap::new(1024);
    for integer in [0isize, 1, -1, 42, isize::MAX, isize::MIN] {
        let binary = heap
            .binary_from_bytes(integer.to_string().as_bytes())
            .unwrap();
        assert_eq!(
            binary_to_float(&mut heap, &binary),
            Err(Exception::Badarg(Badarg::NoDecimalPoint))
        );
    }
}

#[test]
fn with_binary_with_f64_returns_floats() {
    let mut heap = Heap::new(4096);
    for f in [
        3.14f64,
        0.0,
        1.0,
        -1.0,
        0.1,
        123456.789,
        -2.5e-3,
        f64::MAX,
        f64::MIN,
        f64::MIN_POSITIVE,
        5e-324,
        1e300,
    ] {
        let byte_vec = format!("{:?}", f).as_bytes().to_owned();
        if !byte_vec.contains(&b'.') {
            continue;
        }
        let binary = heap.binary_from_bytes(&byte_vec).unwrap();
        assert_eq!(
            binary_to_float(&mut heap, &binary),
            Ok(heap.float(f.to_bits()).unwrap()),
            "{:?}",
            f
        );
    }
}

#[test]
fn binary_of_3_14_is_the_float_3_14() {
    let mut heap = Heap::new(64);
    let binary = heap.binary_from_bytes(b"3.14").unwrap();
    let float = binary_to_float(&mut heap, &binary).unwrap();
    assert_eq!(float.to_float().unwrap().to_bits(), 3.14f64.to_bits());
    assert_eq!(
        format!("{:?}", f64::from_bits(float.to_float().unwrap().to_bits())),
        "3.14"
    );
    assert_eq!(float.to_float().unwrap().to_bits(), 0x40091eb851eb851f);
}

#[test]
fn binary_to_float_reads_a_part_of_a_binary() {
    let mut heap = Heap::new(64);
    let original = heap.binary_from_bytes(b"x2.5y").unwrap();
    let part = heap.subbinary_from_original(&original, 1, 0, 3, 0).unwrap();
    assert_eq!(
        binary_to_float(&mut heap, &part),
        Ok(heap.float(2.5f64.to_bits()).unwrap())
    );
}

const BEYOND_MAX: &str = "1797693134862315700000000000000000000000000000000000000000000000000000000000000000000000000000000000000000000000000000000000000000000000000000000000000000000000000000000000000000000000000000000000000000000000000000000000000000000000000000000000000000000000000000000000000000000000000000000000000000000000000000.0";

#[test]
fn with_binary_with_less_than_min_f64_errors_badarg() {
    let mut heap = Heap::new(1024);
    let text = format!("-{}", BEYOND_MAX);
    let binary = heap.binary_from_bytes(text.as_bytes()).unwrap();
    assert_eq!(
        binary_to_float(&mut heap, &binary),
        Err(Exception::Badarg(Badarg::Infinity))
    );
}

#[test]
fn with_binary_with_greater_than_max_f64_errors_badarg() {
    let mut heap = Heap::new(1024);
    let binary = heap.binary_from_bytes(BEYOND_MAX.as_bytes()).unwrap();
    assert_eq!(
        binary_to_float(&mut heap, &binary),
        Err(Exception::Badarg(Badarg::Infinity))
    );
}

#[test]
fn binary_that_holds_no_number_errors_badarg() {
    let mut heap = Heap::new(1024);
    for text in ["", "abc", "1.2.3", ".", "1.0x"] {
        let binary = heap.binary_from_bytes(text.as_bytes()).unwrap();
        assert_eq!(
            binary_to_float(&mut heap, &binary),
            Err(Exception::Badarg(Badarg::NotAFloat)),
            "{:?}",
            text
        );
    }
    let binary = heap.binary_from_bytes(&[0xff, b'.', b'1']).unwrap();
    assert_eq!(
        binary_to_float(&mut heap, &binary),
        Err(Exception::Badarg(Badarg::NotAFloat))
    );
    let nan = heap.binary_from_bytes(b"NaN").unwrap();
    assert_eq!(
        binary_to_float(&mut heap, &nan),
        Err(Exception::Badarg(Badarg::Infinity))
    );
}

#[test]
fn binary_to_float_needs_room_for_the_float() {
    let mut heap = Heap::new(4);
    let binary = heap.binary_from_bytes(b"1.5").unwrap();
    assert_eq!(heap.words_available(), 1);
    assert_eq!(binary_to_float(&mut heap, &binary), Err(Exception::Alloc));
}
