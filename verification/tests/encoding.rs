use liblumen_alloc::atom::{Atom, AtomTable};
use liblumen_alloc::encoding::{
    decode, decode_header, decode_term, encode, encode_header, encode_term, is_boxed, is_header,
    is_immediate, is_literal, Tagged,
};
use liblumen_alloc::heap::Heap;
use liblumen_alloc::number::SmallInteger;
use liblumen_alloc::term::{Header, Kind, Pid, Port, Term};

#[test]
fn small_integer_lies_above_four_bits_of_tag() {
    assert_eq!(encode(Tagged::SmallInteger(0)), 0xf);
    assert_eq!(encode(Tagged::SmallInteger(1)), 0x1f);
    assert_eq!(encode(Tagged::SmallInteger(-1)), u64::MAX);
    assert_eq!(
        encode(Tagged::SmallInteger(SmallInteger::MAX_VALUE)),
        0x7fff_ffff_ffff_ffff
    );
    assert_eq!(
        encode(Tagged::SmallInteger(SmallInteger::MIN_VALUE)),
        0x8000_0000_0000_000f
    );
}

#[test]
fn immediates_are_told_apart_by_six_bits() {
    assert_eq!(encode(Tagged::Atom(0)), 0x07);
    assert_eq!(encode(Tagged::Atom(5)), 5 * 64 + 0x07);
    assert_eq!(
        encode(Tagged::Pid {
            number: 3,
            serial: 2
        }),
        (2 * 0x8000 + 3) * 64 + 0x17
    );
    assert_eq!(encode(Tagged::Port(9)), 9 * 64 + 0x27);
    assert_eq!(encode(Tagged::Nil), 0x37);
}

#[test]
fn boxed_pointer_keeps_its_address_above_the_tag() {
    assert_eq!(
        encode(Tagged::Boxed {
            address: 0x1000,
            literal: false
        }),
        0x1001
    );
    assert_eq!(
        encode(Tagged::Boxed {
            address: 0x1000,
            literal: true
        }),
        0x1003
    );
    assert!(is_boxed(0x1001) && is_boxed(0x1003));
    assert!(!is_literal(0x1001) && is_literal(0x1003));
    assert!(!is_immediate(0x1001));
    assert!(is_immediate(0x37) && !is_boxed(0x37));
}

#[test]
fn what_was_put_in_a_word_is_what_the_word_holds() {
    let values = [
        Tagged::SmallInteger(0),
        Tagged::SmallInteger(1),
        Tagged::SmallInteger(-1),
        Tagged::SmallInteger(SmallInteger::MAX_VALUE),
        Tagged::SmallInteger(SmallInteger::MIN_VALUE),
        Tagged::Atom(0),
        Tagged::Atom(u32::MAX),
        Tagged::Pid {
            number: 0,
            serial: 0,
        },
        Tagged::Pid {
            number: 0x7fff,
            serial: 0x1fff,
        },
        Tagged::Port(0),
        Tagged::Port(u32::MAX),
        Tagged::Nil,
        Tagged::Boxed {
            address: 0,
            literal: false,
        },
        Tagged::Boxed {
            address: 0xffff_ffff_ffff_fff8,
            literal: true,
        },
    ];
    for (i, value) in values.iter().enumerate() {
        let word = encode(*value);
        assert_eq!(decode(word), Some(*value));
        assert!(!is_header(word));
        for (j, other) in values.iter().enumerate() {
            assert_eq!(encode(*other) == word, i == j);
        }
    }
}

#[test]
fn words_that_hold_nothing_decode_to_nothing() {
    for word in [0x02u64, 0x04, 0x05, 0x06, 0x77, 0x137] {
        assert_eq!(decode(word), None, "{:#x}", word);
        assert!(!is_immediate(word));
    }
    // An atom, a port or a serial that is out of range.
    assert_eq!(decode((1u64 << 32) * 64 + 0x07), None);
    assert_eq!(decode((1u64 << 32) * 64 + 0x27), None);
    assert_eq!(decode((0x2000u64 * 0x8000) * 64 + 0x17), None);
}

#[test]
fn header_holds_kind_and_arity() {
    let kinds = [
        Kind::Closure,
        Kind::Tuple,
        Kind::Cons,
        Kind::HeapBinary,
        Kind::SubBinary,
        Kind::BigInteger,
        Kind::Float,
        Kind::Mapping,
        Kind::Reference,
        Kind::ExternalPid,
    ];
    for (tag, kind) in kinds.iter().enumerate() {
        for arity_words in [0usize, 1, 10, 0x01ff_ffff_ffff_ffff] {
            let header = Header {
                kind: *kind,
                arity_words,
            };
            let word = encode_header(header);
            assert_eq!(word, arity_words as u64 * 128 + tag as u64 * 8);
            assert_eq!(decode_header(word), Some(header));
            assert!(is_header(word));
            assert_eq!(decode(word), None);
        }
    }
    assert_eq!(decode_header(10 * 8), None);
    assert_eq!(decode_header(15 * 8), None);
    assert_eq!(decode_header(0x01), None);
    assert_eq!(decode_header(0x37), None);
}

#[test]
fn atom_table_gives_each_atom_one_number() {
    let mut atoms = AtomTable::new();
    assert_eq!(atoms.len(), 0);
    let a = Atom::from_str("a");
    let b = Atom::from_str("b");
    assert_eq!(atoms.lookup(&a), None);
    assert_eq!(atoms.intern(&a), Some(0));
    assert_eq!(atoms.intern(&b), Some(1));
    assert_eq!(atoms.intern(&a), Some(0));
    assert_eq!(atoms.len(), 2);
    assert_eq!(atoms.lookup(&b), Some(1));
    assert_eq!(atoms.name_of(0), Some(a));
    assert_eq!(atoms.name_of(1), Some(b));
    assert_eq!(atoms.name_of(2), None);
}

#[test]
fn immediate_terms_round_trip_through_words() {
    let mut heap = Heap::new(64);
    let mut atoms = AtomTable::new();
    atoms.intern(&Atom::from_str("first"));
    let terms = [
        heap.integer(0).unwrap(),
        heap.integer(-42).unwrap(),
        heap.integer(SmallInteger::MAX_VALUE).unwrap(),
        heap.integer(SmallInteger::MIN_VALUE).unwrap(),
        Atom::str_to_term("first"),
        Atom::str_to_term("second"),
        Pid::make_term(7, 8).unwrap(),
        Term::Port(Port { number: 3 }),
        Term::NIL,
    ];
    for term in &terms {
        let word = encode_term(term, &mut atoms).unwrap();
        assert!(is_immediate(word));
        assert_eq!(decode_term(word, &atoms).as_ref(), Some(term));
    }
    assert_eq!(atoms.len(), 2);
    assert_eq!(encode_term(&Term::NIL, &mut atoms), Some(0x37));
    assert_eq!(
        encode_term(&Atom::str_to_term("second"), &mut atoms),
        Some(64 + 0x07)
    );
}

#[test]
fn boxed_terms_have_no_word_of_their_own() {
    let mut heap = Heap::new(64);
    let mut atoms = AtomTable::new();
    for term in [
        heap.integer(i64::MAX).unwrap(),
        heap.float(1.0f64.to_bits()).unwrap(),
        heap.tuple_from_slice(&[]).unwrap(),
        heap.cons(Term::NIL, Term::NIL).unwrap(),
        heap.binary_from_bytes(&[]).unwrap(),
    ] {
        assert_eq!(encode_term(&term, &mut atoms), None);
    }
    assert_eq!(decode_term(0x1001, &atoms), None);
    assert_eq!(decode_term(0x07, &atoms), None);
    assert_eq!(decode_term(0x02, &atoms), None);
}
