use liblumen_alloc::atom::Atom;
use liblumen_alloc::erlang::{rem_2, Badarith, Exception};
use liblumen_alloc::heap::Heap;
use liblumen_alloc::number::SmallInteger;
use liblumen_alloc::term::{Pid, Term};

fn external_node() -> u32 {
    1
}

#[test]
fn with_atom_dividend_errors_badarith() {
    with_dividend_errors_badarith(|_| Atom::str_to_term("dividend"));
}

#[test]
fn with_local_reference_dividend_errors_badarith() {
    with_dividend_errors_badarith(|process| process.reference(0, 0, 0).unwrap());
}

#[test]
fn with_empty_list_dividend_errors_badarith() {
    with_dividend_errors_badarith(|_| Term::NIL);
}

#[test]
fn with_list_dividend_errors_badarith() {
    with_dividend_errors_badarith(|process| {
        let head = process.integer(0).unwrap();
        let tail = process.integer(1).unwrap();
        process.cons(head, tail).unwrap()
    });
}

#[test]
fn with_local_pid_dividend_errors_badarith() {
    with_dividend_errors_badarith(|_| Pid::make_term(0, 1).unwrap());
}

#[test]
fn with_external_pid_dividend_errors_badarith() {
    with_dividend_errors_badarith(|process| {
        process.external_pid(external_node(), 2, 3).unwrap()
    });
}

#[test]
fn with_tuple_dividend_errors_badarith() {
    with_dividend_errors_badarith(|process| process.tuple_from_slice(&[]).unwrap());
}

#[test]
fn with_map_is_dividend_errors_badarith() {
    with_dividend_errors_badarith(|process| process.map_from_slice(&[]).unwrap());
}

#[test]
fn with_heap_binary_dividend_errors_badarith() {
    with_dividend_errors_badarith(|process| process.binary_from_bytes(&[]).unwrap());
}

#[test]
fn with_subbinary_dividend_errors_badarith() {
    with_dividend_errors_badarith(|process| {
        let original = process
            .binary_from_bytes(&[0b0000_00001, 0b1111_1110, 0b1010_1011])
            .unwrap();
        process
            .subbinary_from_original(&original, 0, 7, 2, 1)
            .unwrap()
    });
}

#[test]
fn without_integer_dividend_errors_badarith() {
    let mut heap = Heap::new(64);
    let dividend = heap.float(3.0f64.to_bits()).unwrap();
    let divisor = heap.integer(2).unwrap();
    assert_eq!(
        rem_2(&mut heap, &dividend, &divisor),
        Err(Exception::Badarith(Badarith::NotBothIntegers))
    );
}

#[test]
fn with_integer_dividend_without_integer_divisor_errors_badarith() {
    let mut heap = Heap::new(64);
    let dividend = heap.integer(3).unwrap();
    let divisor = heap.float(2.0f64.to_bits()).unwrap();
    assert_eq!(
        rem_2(&mut heap, &dividend, &divisor),
        Err(Exception::Badarith(Badarith::NotBothIntegers))
    );
    let divisor = Atom::str_to_term("divisor");
    assert_eq!(
        rem_2(&mut heap, &dividend, &divisor),
        Err(Exception::Badarith(Badarith::NotBothIntegers))
    );
}

#[test]
fn with_integer_dividend_with_zero_divisor_errors_badarith() {
    let mut heap = Heap::new(64);
    let divisor = heap.integer(0).unwrap();
    for dividend in [0, 1, -1, i64::MAX, i64::MIN] {
        let dividend = heap.integer(dividend).unwrap();
        assert_eq!(
            rem_2(&mut heap, &dividend, &divisor),
            Err(Exception::Badarith(Badarith::ZeroDivisor))
        );
    }
}

#[test]
fn remainder_has_the_sign_of_the_dividend() {
    let mut heap = Heap::new(1024);
    for (dividend, divisor, expected) in [
        (7i64, 3i64, 1i64),
        (-7, 3, -1),
        (7, -3, 1),
        (-7, -3, -1),
        (6, 3, 0),
        (-6, 3, 0),
        (2, 5, 2),
        (i64::MIN, 10, -8),
        (i64::MAX, i64::MIN, i64::MAX),
        (SmallInteger::MAX_VALUE + 1, SmallInteger::MAX_VALUE, 1),
    ] {
        let a = heap.integer(dividend).unwrap();
        let b = heap.integer(divisor).unwrap();
        let expected = heap.integer(expected).unwrap();
        assert_eq!(rem_2(&mut heap, &a, &b), Ok(expected));
    }
}

#[test]
fn remainder_that_is_big_needs_room_on_the_heap() {
    let mut heap = Heap::new(8);
    let a = heap.integer(i64::MAX).unwrap();
    let b = heap.integer(i64::MIN).unwrap();
    assert_eq!(heap.words_available(), 0);
    assert_eq!(rem_2(&mut heap, &a, &b), Err(Exception::Alloc));
}

fn with_dividend_errors_badarith<M>(dividend: M)
where
    M: FnOnce(&mut Heap) -> Term,
{
    errors_badarith(|process| {
        let dividend = dividend(process);
        let divisor = process.integer(0).unwrap();

        rem_2(process, &dividend, &divisor)
    });
}

fn errors_badarith<F>(actual: F)
where
    F: FnOnce(&mut Heap) -> Result<Term, Exception>,
{
    let mut heap = Heap::new(1024);
    assert!(matches!(actual(&mut heap), Err(Exception::Badarith(_))))
}
