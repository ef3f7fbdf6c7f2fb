use liblumen_alloc::atom::Atom;
use liblumen_alloc::closure::Creator;
use liblumen_alloc::erlang::{Badarg, Badarith, Exception};
use liblumen_alloc::heap::Heap;
use liblumen_alloc::term::{Closure, Header, Kind, Pid, Port, SubBinary, Term};

fn closure(heap: &mut Heap) -> Box<Closure> {
    Closure::new_anonymous(
        heap,
        Atom::from_str("m"),
        0,
        0,
        [0u8; 16],
        0,
        None,
        Creator::Local(Pid {
            number: 0,
            serial: 0,
        }),
        1,
    )
    .unwrap()
}

#[test]
fn each_kind_answers_to_its_own_predicate() {
    let mut heap = Heap::new(1024);
    let original = heap.binary_from_bytes(&[1, 2]).unwrap();
    // (term, number, integer, float, atom, list, tuple, map, function, pid,
    //  reference, port, bitstring, binary)
    let rows = [
        (heap.integer(1).unwrap(), "number integer"),
        (heap.integer(i64::MAX).unwrap(), "number integer"),
        (heap.float(1.0f64.to_bits()).unwrap(), "number float"),
        (Atom::str_to_term("a"), "atom"),
        (Term::NIL, "list"),
        (heap.cons(Term::NIL, Term::NIL).unwrap(), "list"),
        (heap.tuple_from_slice(&[]).unwrap(), "tuple"),
        (heap.map_from_slice(&[]).unwrap(), "map"),
        (Term::Closure(closure(&mut heap)), "function"),
        (Pid::make_term(1, 1).unwrap(), "pid"),
        (heap.external_pid(1, 1, 1).unwrap(), "pid"),
        (heap.reference(1, 1, 1).unwrap(), "reference"),
        (Term::Port(Port { number: 1 }), "port"),
        (heap.binary_from_bytes(&[1]).unwrap(), "bitstring binary"),
        (
            heap.subbinary_from_original(&original, 0, 1, 1, 0).unwrap(),
            "bitstring binary",
        ),
        (
            heap.subbinary_from_original(&original, 0, 1, 1, 1).unwrap(),
            "bitstring",
        ),
    ];
    for (term, kinds) in rows {
        let has = |kind: &str| kinds.split(' ').any(|k| k == kind);
        assert_eq!(term.is_number(), has("number"), "{:?}", term);
        assert_eq!(term.is_integer(), has("integer"), "{:?}", term);
        assert_eq!(term.is_float(), has("float"), "{:?}", term);
        assert_eq!(term.is_atom(), has("atom"), "{:?}", term);
        assert_eq!(term.is_list(), has("list"), "{:?}", term);
        assert_eq!(term.is_tuple(), has("tuple"), "{:?}", term);
        assert_eq!(term.is_map(), has("map"), "{:?}", term);
        assert_eq!(term.is_function(), has("function"), "{:?}", term);
        assert_eq!(term.is_pid(), has("pid"), "{:?}", term);
        assert_eq!(term.is_reference(), has("reference"), "{:?}", term);
        assert_eq!(term.is_port(), has("port"), "{:?}", term);
        assert_eq!(term.is_bitstring(), has("bitstring"), "{:?}", term);
        assert_eq!(term.is_binary(), has("binary"), "{:?}", term);
        assert_eq!(term.is_not_number(), !has("number"));
        assert_eq!(term.is_not_integer(), !has("integer"));
        assert_eq!(term.is_not_float(), !has("float"));
        assert_eq!(term.is_not_list(), !has("list"));
        assert_eq!(term.is_not_tuple(), !has("tuple"));
        assert_eq!(term.is_not_bitstring(), !has("bitstring"));
        assert_eq!(term.is_not_binary(), !has("binary"));
        assert_eq!(term.to_integer().is_ok(), has("integer"));
        assert_eq!(term.to_float().is_ok(), has("float"));
        assert_eq!(term.to_tuple().is_ok(), has("tuple"));
        assert_eq!(term.to_bytes().is_ok(), has("binary"));
        assert!(term.is_valid(), "{:?}", term);
    }
}

#[test]
fn projection_gives_what_the_term_holds() {
    let mut heap = Heap::new(64);
    let seven = heap.integer(7).unwrap();
    assert_eq!(seven.to_integer().unwrap().magnitude(), 7);
    let float = heap.float(2.5f64.to_bits()).unwrap();
    assert_eq!(float.to_float().unwrap().to_bits(), 2.5f64.to_bits());
    let tuple = heap
        .tuple_from_slice(&[seven.duplicate(), float.duplicate()])
        .unwrap();
    assert_eq!(tuple.to_tuple().unwrap(), &vec![seven, float]);
    let binary = heap.binary_from_bytes(&[1, 2, 3]).unwrap();
    assert_eq!(binary.to_bytes(), Ok(vec![1, 2, 3]));
    let part = heap.subbinary_from_original(&binary, 0, 4, 2, 0).unwrap();
    assert_eq!(part.to_bytes(), Ok(vec![0x10, 0x20]));
}

#[test]
fn projection_fails_with_a_type_error_for_another_kind() {
    let mut heap = Heap::new(64);
    let atom = Atom::str_to_term("a");
    let pid = Pid::make_term(1, 2).unwrap();
    let reference = heap.reference(1, 2, 3).unwrap();
    let cell = heap.cons(atom.duplicate(), Term::NIL).unwrap();
    let map = heap
        .map_from_slice(&[(atom.duplicate(), pid.duplicate())])
        .unwrap();
    let fun = Term::Closure(closure(&mut heap));

    assert_eq!(atom.to_atom(), Ok(&Atom::from_str("a")));
    assert!(pid.to_atom().is_err());
    assert_eq!(
        pid.to_pid(),
        Ok(Pid {
            number: 1,
            serial: 2
        })
    );
    assert!(atom.to_pid().is_err());
    assert_eq!(reference.to_reference().unwrap().number, 3);
    assert!(atom.to_reference().is_err());
    assert_eq!(cell.to_cons(), Ok((&atom, &Term::NIL)));
    assert!(Term::NIL.to_cons().is_err());
    assert_eq!(map.to_map(), Ok((&vec![atom.duplicate()], &vec![pid])));
    assert!(cell.to_map().is_err());
    assert_eq!(fun.to_closure().unwrap().env_len(), 1);
    assert!(map.to_closure().is_err());
}

#[test]
fn checked_size_is_the_size() {
    let mut heap = Heap::new(256);
    let float = heap.float(1.5f64.to_bits()).unwrap();
    let tuple = heap
        .tuple_from_slice(&[float.duplicate(), Term::NIL])
        .unwrap();
    let list = heap.list_from_slice(&[tuple.duplicate(), float]).unwrap();
    for term in [Term::NIL, tuple, list, Term::Closure(closure(&mut heap))] {
        assert_eq!(term.checked_size_in_words(), Some(term.size_in_words()));
    }
}

#[test]
fn term_that_breaks_an_invariant_is_not_valid() {
    let mut heap = Heap::new(64);
    assert!(!Term::Pid(Pid {
        number: 0x8000,
        serial: 0
    })
    .is_valid());
    assert!(!Term::Mapping(vec![Term::NIL], vec![]).is_valid());
    let part = |byte_offset, bit_offset, full_byte_len, partial_bit_len| {
        Term::SubBinary(SubBinary {
            original: vec![0, 0],
            byte_offset,
            bit_offset,
            full_byte_len,
            partial_bit_len,
        })
    };
    assert!(part(0, 0, 2, 0).is_valid());
    assert!(part(1, 7, 0, 1).is_valid());
    assert!(!part(0, 0, 2, 1).is_valid());
    assert!(!part(0, 8, 0, 0).is_valid());
    assert!(!part(0, 0, 0, 8).is_valid());
    assert!(!part(2, 1, 0, 0).is_valid());
    assert!(!part(usize::MAX, 0, usize::MAX, 0).is_valid());

    let mut broken = closure(&mut heap);
    assert!(broken.is_valid());
    broken.header = Header {
        kind: Kind::Closure,
        arity_words: 8,
    };
    assert!(!broken.is_valid());
    broken.header = Header {
        kind: Kind::Tuple,
        arity_words: 9,
    };
    assert!(!broken.is_valid());
    broken.header = Header {
        kind: Kind::Closure,
        arity_words: 9,
    };
    assert!(broken.is_valid());
    broken.native = Some(0);
    assert!(!broken.is_valid());
    broken.native = Some(8);
    broken.arity = 256;
    assert!(!broken.is_valid());
    broken.arity = 255;
    broken.env[0] = part(0, 0, 3, 0);
    assert!(!broken.is_valid());
    assert!(!Term::Closure(broken).is_valid());
    assert!(!Term::Tuple(vec![part(0, 0, 3, 0)]).is_valid());
    assert!(!Term::Cons(Box::new(Term::NIL), Box::new(part(0, 0, 3, 0))).is_valid());
}

#[test]
fn every_failure_says_what_went_wrong() {
    assert_eq!(
        Exception::Badarg(Badarg::Infinity).message(),
        "Erlang does not support infinities"
    );
    assert_eq!(
        Exception::Badarg(Badarg::NoDecimalPoint).message(),
        "float string does not contain decimal point"
    );
    assert_eq!(
        Exception::Badarith(Badarith::ZeroDivisor).message(),
        "divisor cannot be zero"
    );
    let all = [
        Exception::Badarith(Badarith::NotBothIntegers),
        Exception::Badarith(Badarith::ZeroDivisor),
        Exception::Badarith(Badarith::NotANumber),
        Exception::Badarg(Badarg::NotATuple),
        Exception::Badarg(Badarg::IndexOutOfRange),
        Exception::Badarg(Badarg::NotABinary),
        Exception::Badarg(Badarg::NotAFloat),
        Exception::Badarg(Badarg::NoDecimalPoint),
        Exception::Badarg(Badarg::Infinity),
        Exception::Alloc,
    ];
    for (i, a) in all.iter().enumerate() {
        assert!(!a.message().is_empty());
        for (j, b) in all.iter().enumerate() {
            assert_eq!(a.message() == b.message(), i == j);
        }
    }
}
