//! The tagged word: how an immediate term, a pointer to a boxed object and
//! the header of a boxed object are each held in one 64-bit word.
//!
//! The low three bits of a word tell what it is: `000` a header, `001` a
//! pointer to a boxed object, `011` a pointer to a boxed literal, `111` an
//! immediate. Of an immediate the fourth bit tells a small integer, whose
//! sixty bits follow; of the others the next two bits tell an atom, a
//! process identifier, a port or `nil`.

use vstd::prelude::*;
use crate::atom::AtomTable;
use crate::number::{is_small, SmallInteger};
use crate::term::{Header, Kind, Pid, Port, Term, TermView, PID_NUMBER_MAX, PID_SERIAL_MAX};

verus! {

/// What a word that is no header holds.
#[derive(Clone, Copy, Debug, PartialEq, Eq, Structural)]
pub enum Tagged {
    /// A small integer.
    SmallInteger(i64),
    /// An atom, by its number in the table of atoms.
    Atom(u32),
    /// A local process identifier.
    Pid { number: u32, serial: u32 },
    /// A local port.
    Port(u32),
    /// The empty list.
    Nil,
    /// A pointer to a boxed object, which is aligned to eight bytes. The
    /// literal flag is set where the object lies in read-only memory.
    Boxed { address: u64, literal: bool },
}

/// Whether a value can be held in a word.
pub open spec fn tagged_wf(tagged: Tagged) -> bool {
    match tagged {
        Tagged::SmallInteger(value) => is_small(value as int),
        Tagged::Pid { number, serial } => number <= PID_NUMBER_MAX && serial <= PID_SERIAL_MAX,
        Tagged::Boxed { address, .. } => address % 8 == 0,
        _ => true,
    }
}

/// The word that holds a value.
pub open spec fn encode_spec(tagged: Tagged) -> int {
    match tagged {
        Tagged::SmallInteger(value) => (if value < 0 {
            value + 0x1000_0000_0000_0000
        } else {
            value as int
        }) * 16 + 15,
        Tagged::Atom(id) => id * 64 + 0x07,
        Tagged::Pid { number, serial } => (serial * 0x8000 + number) * 64 + 0x17,
        Tagged::Port(number) => number * 64 + 0x27,
        Tagged::Nil => 0x37,
        Tagged::Boxed { address, literal } => address + (if literal {
            3int
        } else {
            1int
        }),
    }
}

/// The word that holds a value.
pub fn encode(tagged: Tagged) -> (word: u64)
    requires
        tagged_wf(tagged),
    ensures
        word == encode_spec(tagged),
{
    match tagged {
        Tagged::SmallInteger(value) => {
            let payload: u64 = if value < 0 {
                (value + 0x1000_0000_0000_0000) as u64
            } else {
                value as u64
            };
            payload * 16 + 15
        },
        Tagged::Atom(id) => id as u64 * 64 + 0x07,
        Tagged::Pid { number, serial } => (serial as u64 * 0x8000 + number as u64) * 64 + 0x17,
        Tagged::Port(number) => number as u64 * 64 + 0x27,
        Tagged::Nil => 0x37,
        Tagged::Boxed { address, literal } => address + (if literal {
            3
        } else {
            1
        }),
    }
}

/// What a word holds, if it holds a value.
pub open spec fn decode_spec(word: u64) -> Option<Tagged> {
    if word % 8 == 1 || word % 8 == 3 {
        Some(Tagged::Boxed { address: (word - word % 8) as u64, literal: word % 8 == 3 })
    } else if word % 16 == 15 {
        let payload = word / 16;
        Some(
            Tagged::SmallInteger(
                if payload >= 0x0800_0000_0000_0000 {
                    (payload - 0x1000_0000_0000_0000) as i64
                } else {
                    payload as i64
                },
            ),
        )
    } else if word % 64 == 0x07 {
        if word / 64 <= u32::MAX {
            Some(Tagged::Atom((word / 64) as u32))
        } else {
            None
        }
    } else if word % 64 == 0x17 {
        let payload = word / 64;
        if payload / 0x8000 <= PID_SERIAL_MAX {
            Some(
                Tagged::Pid {
                    number: (payload % 0x8000) as u32,
                    serial: (payload / 0x8000) as u32,
                },
            )
        } else {
            None
        }
    } else if word % 64 == 0x27 {
        if word / 64 <= u32::MAX {
            Some(Tagged::Port((word / 64) as u32))
        } else {
            None
        }
    } else if word == 0x37 {
        Some(Tagged::Nil)
    } else {
        None
    }
}

/// What a word holds, if it holds a value.
pub fn decode(word: u64) -> (tagged: Option<Tagged>)
    ensures
        tagged == decode_spec(word),
        tagged matches Some(t) ==> tagged_wf(t) && encode_spec(t) == word,
{
    let low = word % 8;
    if low == 1 || low == 3 {
        Some(Tagged::Boxed { address: word - low, literal: low == 3 })
    } else if word % 16 == 15 {
        let payload = word / 16;
        if payload >= 0x0800_0000_0000_0000 {
            Some(Tagged::SmallInteger((payload as i128 - 0x1000_0000_0000_0000) as i64))
        } else {
            Some(Tagged::SmallInteger(payload as i64))
        }
    } else if word % 64 == 0x07 {
        if word / 64 <= u32::MAX as u64 {
            Some(Tagged::Atom((word / 64) as u32))
        } else {
            None
        }
    } else if word % 64 == 0x17 {
        let payload = word / 64;
        if payload / 0x8000 <= PID_SERIAL_MAX as u64 {
            Some(
                Tagged::Pid {
                    number: (payload % 0x8000) as u32,
                    serial: (payload / 0x8000) as u32,
                },
            )
        } else {
            None
        }
    } else if word % 64 == 0x27 {
        if word / 64 <= u32::MAX as u64 {
            Some(Tagged::Port((word / 64) as u32))
        } else {
            None
        }
    } else if word == 0x37 {
        Some(Tagged::Nil)
    } else {
        None
    }
}

/// A value that was put in a word is what the word holds.
pub proof fn lemma_decode_encode(tagged: Tagged)
    requires
        tagged_wf(tagged),
    ensures
        0 <= encode_spec(tagged) <= u64::MAX,
        decode_spec(encode_spec(tagged) as u64) == Some(tagged),
{
}

/// Words that hold the same value are the same word.
pub proof fn lemma_encode_decode(word: u64)
    requires
        decode_spec(word) is Some,
    ensures
        tagged_wf(decode_spec(word)->Some_0),
        encode_spec(decode_spec(word)->Some_0) == word,
{
}

/// Whether a word holds an immediate.
pub fn is_immediate(word: u64) -> (answer: bool)
    ensures
        answer == (decode_spec(word) matches Some(t) && !(t is Boxed)),
{
    match decode(word) {
        Some(Tagged::Boxed { .. }) => false,
        Some(_) => true,
        None => false,
    }
}

/// Whether a word holds a pointer to a boxed object.
pub fn is_boxed(word: u64) -> (answer: bool)
    ensures
        answer == (decode_spec(word) matches Some(t) && t is Boxed),
        answer == (word % 8 == 1 || word % 8 == 3),
{
    let low = word % 8;
    low == 1 || low == 3
}

/// Whether a word holds a pointer to a boxed literal.
pub fn is_literal(word: u64) -> (answer: bool)
    ensures
        answer == (decode_spec(word) matches Some(Tagged::Boxed { literal, .. }) && literal),
{
    word % 8 == 3
}

/// The number that stands for a kind in a header.
pub open spec fn kind_tag(kind: Kind) -> int {
    match kind {
        Kind::Closure => 0,
        Kind::Tuple => 1,
        Kind::Cons => 2,
        Kind::HeapBinary => 3,
        Kind::SubBinary => 4,
        Kind::BigInteger => 5,
        Kind::Float => 6,
        Kind::Mapping => 7,
        Kind::Reference => 8,
        Kind::ExternalPid => 9,
    }
}

/// The greatest arity that a header word holds.
pub const HEADER_ARITY_MAX: u64 = 0x01ff_ffff_ffff_ffff;

/// The word of a header: the arity above the kind, above three bits of
/// zero.
pub open spec fn encode_header_spec(header: Header) -> int {
    header.arity_words * 128 + kind_tag(header.kind) * 8
}

/// The word of a header.
pub fn encode_header(header: Header) -> (word: u64)
    requires
        header.arity_words <= HEADER_ARITY_MAX,
    ensures
        word == encode_header_spec(header),
        decode_header_spec(word) == Some(header),
{
    let tag: u64 = match header.kind {
        Kind::Closure => 0,
        Kind::Tuple => 1,
        Kind::Cons => 2,
        Kind::HeapBinary => 3,
        Kind::SubBinary => 4,
        Kind::BigInteger => 5,
        Kind::Float => 6,
        Kind::Mapping => 7,
        Kind::Reference => 8,
        Kind::ExternalPid => 9,
    };
    header.arity_words as u64 * 128 + tag * 8
}

/// The header that a word holds, if it holds one.
pub open spec fn decode_header_spec(word: u64) -> Option<Header> {
    if word % 8 != 0 || word / 128 > usize::MAX {
        None
    } else {
        let arity_words = (word / 128) as usize;
        let tag = (word / 8) % 16;
        if tag == 0 {
            Some(Header { kind: Kind::Closure, arity_words })
        } else if tag == 1 {
            Some(Header { kind: Kind::Tuple, arity_words })
        } else if tag == 2 {
            Some(Header { kind: Kind::Cons, arity_words })
        } else if tag == 3 {
            Some(Header { kind: Kind::HeapBinary, arity_words })
        } else if tag == 4 {
            Some(Header { kind: Kind::SubBinary, arity_words })
        } else if tag == 5 {
            Some(Header { kind: Kind::BigInteger, arity_words })
        } else if tag == 6 {
            Some(Header { kind: Kind::Float, arity_words })
        } else if tag == 7 {
            Some(Header { kind: Kind::Mapping, arity_words })
        } else if tag == 8 {
            Some(Header { kind: Kind::Reference, arity_words })
        } else if tag == 9 {
            Some(Header { kind: Kind::ExternalPid, arity_words })
        } else {
            None
        }
    }
}

/// The header that a word holds, if it holds one.
pub fn decode_header(word: u64) -> (header: Option<Header>)
    ensures
        header == decode_header_spec(word),
        header matches Some(h) ==> encode_header_spec(h) == word,
{
    if word % 8 != 0 || word / 128 > usize::MAX as u64 {
        return None;
    }
    let arity_words = (word / 128) as usize;
    let tag = (word / 8) % 16;
    let kind = if tag == 0 {
        Kind::Closure
    } else if tag == 1 {
        Kind::Tuple
    } else if tag == 2 {
        Kind::Cons
    } else if tag == 3 {
        Kind::HeapBinary
    } else if tag == 4 {
        Kind::SubBinary
    } else if tag == 5 {
        Kind::BigInteger
    } else if tag == 6 {
        Kind::Float
    } else if tag == 7 {
        Kind::Mapping
    } else if tag == 8 {
        Kind::Reference
    } else if tag == 9 {
        Kind::ExternalPid
    } else {
        return None;
    };
    Some(Header { kind, arity_words })
}

/// Whether a word is a header.
pub fn is_header(word: u64) -> (answer: bool)
    ensures
        answer == (decode_header_spec(word) is Some),
{
    decode_header(word).is_some()
}

/// The view of the immediate term that a value stands for, where `atoms`
/// holds the names of the atoms.
pub open spec fn tagged_view(tagged: Tagged, atoms: Seq<Seq<u8>>) -> Option<TermView> {
    match tagged {
        Tagged::SmallInteger(value) => Some(TermView::Integer(value as int)),
        Tagged::Atom(id) => if id < atoms.len() {
            Some(TermView::Atom(atoms[id as int]))
        } else {
            None
        },
        Tagged::Pid { number, serial } => Some(TermView::Pid(Pid { number, serial })),
        Tagged::Port(number) => Some(TermView::Port(Port { number })),
        Tagged::Nil => Some(TermView::Nil),
        Tagged::Boxed { .. } => None,
    }
}

/// The word of an immediate term. The atom of the term is interned in
/// `atoms`. There is no word for a term that is an object on a heap, nor for
/// an atom that a full table does not hold.
pub fn encode_term(term: &Term, atoms: &mut AtomTable) -> (word: Option<u64>)
    requires
        term.wf(),
        old(atoms).wf(),
    ensures
        final(atoms).wf(),
        final(atoms)@.subrange(0, old(atoms)@.len() as int) == old(atoms)@,
        word matches Some(w) ==> (decode_spec(w) matches Some(t) && tagged_wf(t) && tagged_view(
            t,
            final(atoms)@,
        ) == Some(term@)),
        word is Some ==> crate::term::is_immediate_spec(term),
        !(term is Atom) ==> final(atoms)@ == old(atoms)@ && (word is Some
            <==> crate::term::is_immediate_spec(term)),
        term is Atom && word is None ==> final(atoms)@ == old(atoms)@ && old(atoms)@.len()
            == 0x1_0000_0000,
{
    let tagged = match term {
        Term::SmallInteger(i) => Tagged::SmallInteger(i.value()),
        Term::Atom(a) => match atoms.intern(a) {
            Some(id) => Tagged::Atom(id),
            None => {
                return None;
            },
        },
        Term::Pid(p) => Tagged::Pid { number: p.number, serial: p.serial },
        Term::Port(p) => Tagged::Port(p.number),
        Term::Nil => Tagged::Nil,
        _ => {
            proof {
                crate::term::lemma_object_words(term);
                crate::heap::lemma_word_is_pow2();
            }
            assert(atoms@.subrange(0, atoms@.len() as int) =~= atoms@);
            return None;
        },
    };
    proof {
        lemma_decode_encode(tagged);
        if !(term is Atom) {
            assert(atoms@.subrange(0, atoms@.len() as int) =~= atoms@);
        }
    }
    Some(encode(tagged))
}

/// The immediate term that a word holds, if it holds one whose atom is in
/// `atoms`.
pub fn decode_term(word: u64, atoms: &AtomTable) -> (term: Option<Term>)
    requires
        atoms.wf(),
    ensures
        term matches Some(t) ==> t.wf() && (decode_spec(word) matches Some(tagged) && tagged_view(
            tagged,
            atoms@,
        ) == Some(t@)),
        term is None <==> (decode_spec(word) matches Some(tagged) ==> tagged_view(tagged, atoms@)
            is None),
{
    match decode(word) {
        Some(Tagged::SmallInteger(value)) => match SmallInteger::new(value) {
            Some(small) => Some(Term::SmallInteger(small)),
            None => None,
        },
        Some(Tagged::Atom(id)) => match atoms.name_of(id) {
            Some(name) => Some(Term::Atom(name)),
            None => None,
        },
        Some(Tagged::Pid { number, serial }) => Some(Term::Pid(Pid { number, serial })),
        Some(Tagged::Port(number)) => Some(Term::Port(Port { number })),
        Some(Tagged::Nil) => Some(Term::Nil),
        _ => None,
    }
}

} // verus!
