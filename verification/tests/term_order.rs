use liblumen_alloc::atom::Atom;
use liblumen_alloc::closure::Creator;
use liblumen_alloc::heap::Heap;
use liblumen_alloc::number::SmallInteger;
use liblumen_alloc::order::Order;
use liblumen_alloc::term::{Closure, Pid, Port, Term};

fn fun_term(heap: &mut Heap) -> Term {
    Term::Closure(
        Closure::new_anonymous(
            heap,
            Atom::from_str("m"),
            0,
            0,
            [0u8; 16],
            0,
            None,
            Creator::Local(Pid {
                number: 0,
                serial: 0,
            }),
            0,
        )
        .unwrap(),
    )
}

fn one_of_each_kind(heap: &mut Heap) -> Vec<Term> {
    let one = heap.integer(1).unwrap();
    let list = heap.cons(one.duplicate(), Term::NIL).unwrap();
    vec![
        one,
        Atom::str_to_term("a"),
        heap.reference(0, 0, 0).unwrap(),
        fun_term(heap),
        Term::Port(Port { number: 0 }),
        Pid::make_term(0, 0).unwrap(),
        heap.tuple_from_slice(&[]).unwrap(),
        heap.map_from_slice(&[]).unwrap(),
        Term::NIL,
        list,
        heap.binary_from_bytes(b"").unwrap(),
    ]
}

#[test]
fn kinds_are_ordered_number_atom_reference_function_port_pid_tuple_map_nil_list_bitstring() {
    let mut heap = Heap::new(1024);
    let terms = one_of_each_kind(&mut heap);
    for i in 0..terms.len() {
        for j in 0..terms.len() {
            let expected = if i < j {
                Order::Less
            } else if i == j {
                Order::Equal
            } else {
                Order::Greater
            };
            assert_eq!(terms[i].compare(&terms[j]), expected, "{} and {}", i, j);
            assert_eq!(terms[i].equals(&terms[j]), i == j);
            assert_eq!(terms[i].exact_eq(&terms[j]), i == j);
        }
    }
}

#[test]
fn tuple_of_no_elements_is_not_nil() {
    let mut heap = Heap::new(16);
    let empty = heap.tuple_from_slice(&[]).unwrap();
    assert_ne!(empty, Term::NIL);
    assert!(!empty.exact_eq(&Term::NIL));
    assert!(!empty.equals(&Term::NIL));
    assert_eq!(empty.compare(&Term::NIL), Order::Less);
    assert!(empty.is_tuple() && !empty.is_list());
    assert!(Term::NIL.is_list() && !Term::NIL.is_tuple());
    assert_ne!(empty.hash(), Term::NIL.hash());
    assert!(!empty.is_immediate());
    assert!(Term::NIL.is_immediate());
}

fn samples(heap: &mut Heap) -> Vec<Term> {
    let mut terms = one_of_each_kind(heap);
    for value in [
        0i64,
        -1,
        2,
        SmallInteger::MAX_VALUE,
        SmallInteger::MAX_VALUE + 1,
        SmallInteger::MIN_VALUE,
        SmallInteger::MIN_VALUE - 1,
        i64::MAX,
        i64::MIN,
    ] {
        terms.push(heap.integer(value).unwrap());
    }
    for value in [
        0.0f64,
        1.0,
        -1.0,
        0.5,
        1.5,
        2.0,
        f64::MAX,
        f64::MIN,
        f64::MIN_POSITIVE,
        5e-324,
        9007199254740992.0,
        9223372036854775808.0,
        -9223372036854775808.0,
        576460752303423488.0,
    ] {
        terms.push(heap.float(value.to_bits()).unwrap());
    }
    for name in ["", "b", "ab", "a\u{7f}", "\u{e9}"] {
        terms.push(Atom::str_to_term(name));
    }
    terms.push(heap.reference(0, 0, 1).unwrap());
    terms.push(heap.reference(0, 1, 0).unwrap());
    terms.push(heap.reference(1, 0, 0).unwrap());
    terms.push(Term::Port(Port { number: 1 }));
    terms.push(Pid::make_term(0, 1).unwrap());
    terms.push(Pid::make_term(1, 0).unwrap());
    terms.push(heap.external_pid(1, 0, 0).unwrap());
    terms.push(heap.external_pid(0, 1, 1).unwrap());
    let one = heap.integer(1).unwrap();
    let two = heap.integer(2).unwrap();
    let one_float = heap.float(1.0f64.to_bits()).unwrap();
    terms.push(heap.tuple_from_slice(&[one.duplicate()]).unwrap());
    terms.push(heap.tuple_from_slice(&[one_float.duplicate()]).unwrap());
    terms.push(heap.tuple_from_slice(&[two.duplicate()]).unwrap());
    terms.push(
        heap.tuple_from_slice(&[one.duplicate(), one.duplicate()])
            .unwrap(),
    );
    terms.push(
        heap.map_from_slice(&[(one.duplicate(), two.duplicate())])
            .unwrap(),
    );
    terms.push(
        heap.map_from_slice(&[(one.duplicate(), one.duplicate())])
            .unwrap(),
    );
    terms.push(
        heap.map_from_slice(&[(two.duplicate(), one.duplicate())])
            .unwrap(),
    );
    terms.push(heap.list_from_slice(&[one.duplicate(), two.duplicate()]).unwrap());
    terms.push(heap.list_from_slice(&[two.duplicate()]).unwrap());
    terms.push(heap.cons(one.duplicate(), two.duplicate()).unwrap());
    terms.push(heap.binary_from_bytes(&[0]).unwrap());
    terms.push(heap.binary_from_bytes(&[0, 0]).unwrap());
    terms.push(heap.binary_from_bytes(&[1]).unwrap());
    terms.push(heap.binary_from_bytes(&[0b1010_1010, 0xff]).unwrap());
    let original = heap.binary_from_bytes(&[0b1010_1010, 0xff, 0x0f]).unwrap();
    terms.push(heap.subbinary_from_original(&original, 0, 0, 2, 0).unwrap());
    terms.push(heap.subbinary_from_original(&original, 0, 1, 1, 3).unwrap());
    terms.push(heap.subbinary_from_original(&original, 1, 4, 1, 0).unwrap());
    terms.push(heap.subbinary_from_original(&original, 0, 0, 0, 1).unwrap());
    terms.push(heap.subbinary_from_original(&original, 0, 0, 0, 0).unwrap());
    terms
}

#[test]
fn of_less_equal_and_greater_exactly_one_holds_and_the_reverse_with_it() {
    let mut heap = Heap::new(4096);
    let terms = samples(&mut heap);
    for a in &terms {
        assert_eq!(a.compare(a), Order::Equal);
        for b in &terms {
            let forth = a.compare(b);
            let back = b.compare(a);
            assert_eq!(back, forth.reverse(), "{:?} and {:?}", a, b);
        }
    }
}

#[test]
fn order_is_transitive() {
    let mut heap = Heap::new(4096);
    let terms = samples(&mut heap);
    for a in &terms {
        for b in &terms {
            let ab = a.compare(b);
            if ab == Order::Greater {
                continue;
            }
            for c in &terms {
                let bc = b.compare(c);
                if bc == Order::Greater {
                    continue;
                }
                let ac = a.compare(c);
                assert_ne!(ac, Order::Greater, "{:?} {:?} {:?}", a, b, c);
                if ab == Order::Less || bc == Order::Less {
                    assert_eq!(ac, Order::Less, "{:?} {:?} {:?}", a, b, c);
                } else {
                    assert_eq!(ac, Order::Equal, "{:?} {:?} {:?}", a, b, c);
                }
            }
        }
    }
}

#[test]
fn the_same_terms_have_the_same_hash() {
    let mut heap = Heap::new(4096);
    let terms = samples(&mut heap);
    let mut again = Heap::new(4096);
    let copies = samples(&mut again);
    for (term, copy) in terms.iter().zip(copies.iter()) {
        assert!(term.exact_eq(copy));
        assert_eq!(term.hash(), copy.hash());
        assert_eq!(term.duplicate().hash(), term.hash());
    }
    for a in &terms {
        for b in &terms {
            if a.exact_eq(b) {
                assert_eq!(a.hash(), b.hash(), "{:?} and {:?}", a, b);
                assert_eq!(a.compare(b), Order::Equal);
            }
        }
    }
}

#[test]
fn terms_that_are_equal_in_order_have_the_same_hash() {
    let mut heap = Heap::new(4096);
    let terms = samples(&mut heap);
    let mut equal_pairs = 0;
    for a in &terms {
        for b in &terms {
            if a.equals(b) {
                assert_eq!(a.hash(), b.hash(), "{:?} and {:?}", a, b);
                if !a.exact_eq(b) {
                    equal_pairs += 1;
                }
            }
        }
    }
    // Integers and the floats that hold them, alone and in tuples.
    assert!(equal_pairs >= 10);
}

#[test]
fn a_float_that_holds_an_integer_has_the_hash_of_the_integer() {
    let mut heap = Heap::new(1024);
    for (integer, float) in [
        (0i64, 0.0f64),
        (1, 1.0),
        (-1, -1.0),
        (1 << 53, 9007199254740992.0),
        (i64::MIN, -9223372036854775808.0),
        (1 << 59, 576460752303423488.0),
    ] {
        let integer = heap.integer(integer).unwrap();
        let float = heap.float(float.to_bits()).unwrap();
        assert!(integer.equals(&float));
        assert_eq!(integer.hash(), float.hash());
    }
    let half = heap.float(0.5f64.to_bits()).unwrap();
    let zero = heap.integer(0).unwrap();
    let one = heap.integer(1).unwrap();
    assert_ne!(half.hash(), zero.hash());
    assert_ne!(half.hash(), one.hash());
    let huge = heap.float(f64::MAX.to_bits()).unwrap();
    assert_eq!(huge.to_float().unwrap().to_integer(), None);
    assert_eq!(half.to_float().unwrap().to_integer(), None);
}

#[test]
fn a_binary_and_a_part_of_a_binary_with_the_same_bits_are_the_same_term() {
    let mut heap = Heap::new(64);
    let binary = heap.binary_from_bytes(&[0b0101_0101, 0xfe]).unwrap();
    let original = heap.binary_from_bytes(&[0b1010_1010, 0xff, 0x00]).unwrap();
    // Two bytes, taken after one bit.
    let part = heap.subbinary_from_original(&original, 0, 1, 2, 0).unwrap();
    assert!(binary.exact_eq(&part));
    assert!(part.exact_eq(&binary));
    assert_eq!(binary.compare(&part), Order::Equal);
    assert_eq!(binary.hash(), part.hash());
    assert_eq!(part.to_bytes(), Ok(vec![0b0101_0101, 0xfe]));
    assert!(part.is_binary());

    let bits = heap.subbinary_from_original(&original, 0, 1, 1, 7).unwrap();
    assert!(!bits.is_binary());
    assert!(bits.is_bitstring());
    assert!(bits.to_bytes().is_err());
    assert_eq!(bits.compare(&part), Order::Less);
    assert!(!bits.exact_eq(&part));
}

#[test]
fn an_integer_and_a_float_of_the_same_value_are_equal_but_not_the_same() {
    let mut heap = Heap::new(64);
    let integer = heap.integer(1).unwrap();
    let float = heap.float(1.0f64.to_bits()).unwrap();
    assert_eq!(integer.compare(&float), Order::Equal);
    assert_eq!(float.compare(&integer), Order::Equal);
    assert!(integer.equals(&float));
    assert!(!integer.exact_eq(&float));

    let big = heap.integer(1 << 62).unwrap();
    let float = heap.float(4611686018427387904.0f64.to_bits()).unwrap();
    assert!(big.equals(&float));
    assert!(!big.exact_eq(&float));

    let tuple_of_integer = heap.tuple_from_slice(&[integer.duplicate()]).unwrap();
    let one_float = heap.float(1.0f64.to_bits()).unwrap();
    let tuple_of_float = heap.tuple_from_slice(&[one_float]).unwrap();
    assert!(tuple_of_integer.equals(&tuple_of_float));
    assert!(!tuple_of_integer.exact_eq(&tuple_of_float));
}

#[test]
fn tuples_are_ordered_by_size_before_elements() {
    let mut heap = Heap::new(64);
    let one = heap.integer(1).unwrap();
    let nine = heap.integer(9).unwrap();
    let short = heap.tuple_from_slice(&[nine]).unwrap();
    let long = heap.tuple_from_slice(&[one.duplicate(), one]).unwrap();
    assert_eq!(short.compare(&long), Order::Less);
    assert_eq!(long.compare(&short), Order::Greater);
}

#[test]
fn lists_are_ordered_by_elements_before_length() {
    let mut heap = Heap::new(64);
    let one = heap.integer(1).unwrap();
    let nine = heap.integer(9).unwrap();
    let short = heap.list_from_slice(&[nine]).unwrap();
    let long = heap.list_from_slice(&[one.duplicate(), one.duplicate()]).unwrap();
    assert_eq!(short.compare(&long), Order::Greater);
    let prefix = heap.list_from_slice(&[one]).unwrap();
    assert_eq!(prefix.compare(&long), Order::Less);
}

#[test]
fn atoms_are_ordered_by_name() {
    let a = Atom::from_str("a");
    let b = Atom::from_str("b");
    let ab = Atom::from_str("ab");
    assert_eq!(a.compare(&b), Order::Less);
    assert_eq!(a.compare(&ab), Order::Less);
    assert_eq!(ab.compare(&b), Order::Less);
    assert_eq!(b.compare(&a), Order::Greater);
    assert_eq!(a.compare(&a), Order::Equal);
    assert!(a.same(&Atom::from_bytes(b"a".to_vec())));
    assert_eq!(a.name(), &b"a".to_vec());
    assert_eq!("a".cmp("ab"), std::cmp::Ordering::Less);
}
