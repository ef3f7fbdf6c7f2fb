use liblumen_alloc::atom::Atom;
use liblumen_alloc::heap::{AllocError, Heap};
use liblumen_alloc::layout::Layout;
use liblumen_alloc::number::SmallInteger;
use liblumen_alloc::term::{Header, Kind, Pid, Port, Term};

#[test]
fn heap_gives_out_words_until_none_are_left() {
    let mut heap = Heap::new(4);
    assert_eq!(heap.words_used(), 0);
    assert_eq!(heap.words_available(), 4);

    let two_words = Layout::from_size_align(16, 8).unwrap();
    assert_eq!(heap.alloc_layout(two_words), Ok(0));
    assert_eq!(heap.words_used(), 2);
    assert_eq!(heap.alloc_layout(two_words), Ok(16));
    assert_eq!(heap.words_available(), 0);
    assert_eq!(heap.alloc_layout(two_words), Err(AllocError {}));
    assert_eq!(heap.words_used(), 4);

    let nothing = Layout::from_size_align(0, 1).unwrap();
    assert_eq!(heap.alloc_layout(nothing), Ok(32));
    assert_eq!(heap.words_used(), 4);
}

#[test]
fn heap_gives_out_whole_words_at_the_alignment_asked_for() {
    let mut heap = Heap::new(16);
    let byte = Layout::from_size_align(1, 1).unwrap();
    assert_eq!(heap.alloc_layout(byte), Ok(0));
    assert_eq!(heap.words_used(), 1);
    let wide = Layout::from_size_align(32, 32).unwrap();
    assert_eq!(heap.alloc_layout(wide), Ok(32));
    assert_eq!(heap.words_used(), 8);
    let nine = Layout::from_size_align(9, 2).unwrap();
    assert_eq!(heap.alloc_layout(nine), Ok(64));
    assert_eq!(heap.words_used(), 10);
}

fn one_of_each(heap: &mut Heap) -> Vec<(Term, usize, Option<Header>)> {
    let header = |kind, arity_words| Some(Header { kind, arity_words });
    let one = heap.integer(1).unwrap();
    let float = heap.float(0.5f64.to_bits()).unwrap();
    let original = heap.binary_from_bytes(&[1, 2, 3]).unwrap();
    vec![
        (heap.integer(1).unwrap(), 0, None),
        (Atom::str_to_term("atom"), 0, None),
        (Term::Port(Port { number: 1 }), 0, None),
        (Pid::make_term(1, 2).unwrap(), 0, None),
        (Term::NIL, 0, None),
        (
            heap.integer(SmallInteger::MAX_VALUE + 1).unwrap(),
            4,
            header(Kind::BigInteger, 3),
        ),
        (heap.float(1.5f64.to_bits()).unwrap(), 2, header(Kind::Float, 1)),
        (
            heap.reference(1, 2, 3).unwrap(),
            3,
            header(Kind::Reference, 2),
        ),
        (
            heap.external_pid(1, 2, 3).unwrap(),
            3,
            header(Kind::ExternalPid, 2),
        ),
        (
            heap.tuple_from_slice(&[]).unwrap(),
            1,
            header(Kind::Tuple, 0),
        ),
        (
            heap.tuple_from_slice(&[one.duplicate(), float.duplicate(), Term::NIL])
                .unwrap(),
            4 + 2,
            header(Kind::Tuple, 3),
        ),
        (
            heap.map_from_slice(&[(one.duplicate(), float.duplicate())])
                .unwrap(),
            4 + 2,
            header(Kind::Mapping, 3),
        ),
        (
            heap.cons(float.duplicate(), Term::NIL).unwrap(),
            3 + 2,
            header(Kind::Cons, 2),
        ),
        (
            heap.list_from_slice(&[one.duplicate(), one.duplicate()])
                .unwrap(),
            6,
            header(Kind::Cons, 2),
        ),
        (
            heap.binary_from_bytes(&[]).unwrap(),
            2,
            header(Kind::HeapBinary, 1),
        ),
        (
            heap.binary_from_bytes(&[0; 8]).unwrap(),
            3,
            header(Kind::HeapBinary, 2),
        ),
        (
            heap.binary_from_bytes(&[0; 9]).unwrap(),
            4,
            header(Kind::HeapBinary, 3),
        ),
        (
            heap.subbinary_from_original(&original, 1, 2, 1, 3).unwrap(),
            6,
            header(Kind::SubBinary, 5),
        ),
    ]
}

#[test]
fn size_in_words_counts_the_object_and_its_parts() {
    let mut heap = Heap::new(4096);
    for (term, size, _) in one_of_each(&mut heap) {
        assert_eq!(term.size_in_words(), size, "{:?}", term);
        assert_eq!(term.is_immediate(), size == 0, "{:?}", term);
        assert_eq!(term.is_boxed(), size != 0, "{:?}", term);
    }
}

#[test]
fn header_arity_and_header_size_make_up_the_allocated_size() {
    let mut heap = Heap::new(4096);
    for (term, _, header) in one_of_each(&mut heap) {
        assert_eq!(term.header(), header, "{:?}", term);
        match (term.header(), term.layout()) {
            (Some(header), Some(layout)) => {
                assert_eq!(header.arity_words * 8 + 8, layout.size());
                assert_eq!(layout.align(), 8);
                assert_eq!(layout.size(), term.object_size_in_words() * 8);
            }
            (None, None) => assert_eq!(term.object_size_in_words(), 0),
            other => panic!("{:?} has {:?}", term, other),
        }
    }
}

#[test]
fn clone_to_heap_takes_size_in_words_and_equals_the_term() {
    let mut heap = Heap::new(4096);
    for (term, size, _) in one_of_each(&mut heap) {
        let mut fresh = Heap::new(64);
        let clone = term.clone_to_heap(&mut fresh).unwrap();
        assert_eq!(fresh.words_used(), size, "{:?}", term);
        assert_eq!(clone.size_in_words(), term.size_in_words());
        assert_eq!(clone, term);
        assert!(clone.exact_eq(&term));
        assert_eq!(clone.header(), term.header());
        assert_eq!(clone.hash(), term.hash());
    }
}

#[test]
fn clone_to_heap_succeeds_exactly_where_the_term_fits() {
    let mut heap = Heap::new(4096);
    for (term, size, _) in one_of_each(&mut heap) {
        let mut exact = Heap::new(size);
        assert_eq!(term.clone_to_heap(&mut exact).as_ref(), Ok(&term));
        assert_eq!(exact.words_available(), 0);
        if size > 0 {
            let mut short = Heap::new(size - 1);
            assert_eq!(term.clone_to_heap(&mut short), Err(AllocError {}));
            assert!(short.words_used() <= size - 1);
        }
    }
}

#[test]
fn clone_does_not_share_what_the_term_held_twice() {
    let mut heap = Heap::new(64);
    let float = heap.float(2.5f64.to_bits()).unwrap();
    let used = heap.words_used();
    let pair = heap
        .tuple_from_slice(&[float.duplicate(), float.duplicate()])
        .unwrap();
    // Made of one float twice, the tuple takes three words more.
    assert_eq!(heap.words_used(), used + 3);

    let mut fresh = Heap::new(64);
    let clone = pair.clone_to_heap(&mut fresh).unwrap();
    // The copy holds a float of its own in each place.
    assert_eq!(fresh.words_used(), 3 + 2 + 2);
    assert_eq!(clone, pair);
}

#[test]
fn making_a_term_fails_and_takes_nothing_where_the_heap_is_full() {
    let mut heap = Heap::new(2);
    let one = heap.integer(1).unwrap();
    assert_eq!(heap.cons(one.duplicate(), Term::NIL), Err(AllocError {}));
    assert_eq!(
        heap.tuple_from_slice(&[one.duplicate(), one.duplicate()]),
        Err(AllocError {})
    );
    assert_eq!(heap.map_from_slice(&[]), Ok(Term::Mapping(vec![], vec![])));
    assert_eq!(heap.words_used(), 2);
    assert_eq!(heap.integer(i64::MAX), Err(AllocError {}));
    assert_eq!(heap.float(0), Err(AllocError {}));
    assert_eq!(heap.reference(0, 0, 0), Err(AllocError {}));
    assert_eq!(heap.external_pid(0, 0, 0), Err(AllocError {}));
    assert_eq!(heap.binary_from_bytes(&[]), Err(AllocError {}));
    assert_eq!(heap.list_from_slice(&[one.duplicate()]), Err(AllocError {}));
    assert_eq!(heap.list_from_slice(&[]), Ok(Term::NIL));
    assert_eq!(heap.integer(1), Ok(one));
    assert_eq!(heap.words_used(), 2);
}

#[test]
fn list_from_slice_ends_in_nil() {
    let mut heap = Heap::new(64);
    let a = Atom::str_to_term("a");
    let b = Atom::str_to_term("b");
    let list = heap.list_from_slice(&[a.duplicate(), b.duplicate()]).unwrap();
    assert_eq!(
        list,
        Term::Cons(
            Box::new(a),
            Box::new(Term::Cons(Box::new(b), Box::new(Term::NIL)))
        )
    );
    assert_eq!(heap.words_used(), 6);
}

#[test]
fn process_identifier_has_to_be_in_range() {
    assert!(Pid::make_term(0x7fff, 0x1fff).is_ok());
    assert!(Pid::make_term(0x8000, 0).is_err());
    assert!(Pid::make_term(0, 0x2000).is_err());
    assert_eq!(
        Pid::new(3, 4),
        Ok(Pid {
            number: 3,
            serial: 4
        })
    );
}

#[test]
fn float_of_negative_zero_is_zero() {
    let mut heap = Heap::new(64);
    let zero = heap.float(0.0f64.to_bits()).unwrap();
    let negative_zero = heap.float((-0.0f64).to_bits()).unwrap();
    assert_eq!(zero, negative_zero);
    assert!(zero.exact_eq(&negative_zero));
    assert_eq!(zero.to_float().unwrap().to_bits(), 0);
}
