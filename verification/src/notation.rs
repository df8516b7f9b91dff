//! The textual form of types and attributes.
//!
//! A type is written as a letter and what the letter calls for: `i` and a
//! width, `f`, `p`, `o` and a name, or `F` and two lists of types. An
//! attribute value is written likewise: `u`, `n` with a number and a type,
//! `t` with a string, `y` with a type, and `I`, `T` and `V` with a list of
//! integers, of strings and of variadicity markers.

use vstd::prelude::*;
use crate::format::{after_tag, has_tag, lemma_tag_split, Textual};
use crate::text::{
    lemma_occurs_split, lemma_occurs_within, lemma_parse_number, lemma_parse_text, number, occurs, parse_number,
    parse_text, read_number, read_text, text, write_number, write_text,
};
use crate::types::{lemma_function_view, types_view, Type, TypeView};

verus! {

/// Whether the type `ty` can be written: whether the names and the lists
/// in it are short enough for their lengths to be read again.
pub open spec fn type_fits(ty: TypeView) -> bool
    decreases ty,
{
    match ty {
        TypeView::Integer(width) => true,
        TypeView::Float64 => true,
        TypeView::Pointer => true,
        TypeView::Opaque(name) => name.len() <= u64::MAX,
        TypeView::Function(inputs, outputs) => {
            &&& inputs.len() <= u64::MAX
            &&& outputs.len() <= u64::MAX
            &&& forall|k: int| 0 <= k < inputs.len() ==> type_fits(#[trigger] inputs[k])
            &&& forall|k: int| 0 <= k < outputs.len() ==> type_fits(#[trigger] outputs[k])
        },
    }
}

/// The type `ty` as it is written.
pub open spec fn written_type(ty: TypeView) -> Seq<char>
    decreases ty, 0nat,
{
    match ty {
        TypeView::Integer(width) => seq!['i'] + number(width as nat),
        TypeView::Float64 => seq!['f', ' '],
        TypeView::Pointer => seq!['p', ' '],
        TypeView::Opaque(name) => seq!['o'] + text(name),
        TypeView::Function(inputs, outputs) => seq!['F'] + (written_types(inputs) + written_types(
            outputs,
        )),
    }
}

/// The types `types[from..to]` as they are written, one after the other.
pub open spec fn written_type_range(types: Seq<TypeView>, from: int, to: int) -> Seq<char>
    decreases types, to - from,
{
    if 0 <= from < to <= types.len() {
        written_type_range(types, from, to - 1) + written_type(types[to - 1])
    } else {
        Seq::empty()
    }
}

/// The list of types `types` as it is written: its length, then the types.
pub open spec fn written_types(types: Seq<TypeView>) -> Seq<char>
    decreases types, types.len() + 1,
{
    number(types.len()) + written_type_range(types, 0, types.len() as int)
}

/// The type that is written in `s` at `at`, and the place after it.
pub open spec fn read_type(s: Seq<char>, at: int) -> Option<(TypeView, int)>
    decreases s.len() - at, 0nat,
{
    if at < 0 || at >= s.len() {
        None
    } else if s[at] == 'i' {
        match parse_number(s, at + 1) {
            Some((width, next)) => if width <= u32::MAX {
                Some((TypeView::Integer(width as u32), next))
            } else {
                None
            },
            None => None,
        }
    } else if s[at] == 'f' {
        if after_tag(s, at + 1, ' ') is Some {
            Some((TypeView::Float64, at + 2))
        } else {
            None
        }
    } else if s[at] == 'p' {
        if after_tag(s, at + 1, ' ') is Some {
            Some((TypeView::Pointer, at + 2))
        } else {
            None
        }
    } else if s[at] == 'o' {
        match parse_text(s, at + 1) {
            Some((name, next)) => Some((TypeView::Opaque(name), next)),
            None => None,
        }
    } else if s[at] == 'F' {
        match read_types(s, at + 1) {
            Some((inputs, middle)) => if at < middle <= s.len() {
                match read_types(s, middle) {
                    Some((outputs, next)) => Some((TypeView::Function(inputs, outputs), next)),
                    None => None,
                }
            } else {
                None
            },
            None => None,
        }
    } else {
        None
    }
}

/// The `count` types that are written in `s` from `at` on, and the place
/// after them.
pub open spec fn read_type_items(s: Seq<char>, at: int, count: nat) -> Option<(Seq<TypeView>, int)>
    decreases s.len() - at, count + 1,
{
    if count == 0 {
        Some((Seq::empty(), at))
    } else {
        match read_type(s, at) {
            Some((first, next)) => if at < next <= s.len() {
                match read_type_items(s, next, (count - 1) as nat) {
                    Some((rest, end)) => Some((seq![first] + rest, end)),
                    None => None,
                }
            } else {
                None
            },
            None => None,
        }
    }
}

/// The list of types that is written in `s` at `at`, and the place after it.
pub open spec fn read_types(s: Seq<char>, at: int) -> Option<(Seq<TypeView>, int)>
    decreases s.len() - at, 1nat,
{
    match parse_number(s, at) {
        Some((count, next)) => if at < next <= s.len() {
            read_type_items(s, next, count)
        } else {
            None
        },
        None => None,
    }
}

/// A range of types as it is written starts with the first of them.
pub proof fn lemma_type_range_first(types: Seq<TypeView>, from: int, to: int)
    requires
        0 <= from < to <= types.len(),
    ensures
        written_type_range(types, from, to) == written_type(types[from]) + written_type_range(
            types,
            from + 1,
            to,
        ),
    decreases to - from,
{
    if from + 1 == to {
        assert(written_type_range(types, from, from) =~= Seq::empty());
        assert(written_type_range(types, from + 1, to) =~= Seq::empty());
        assert(written_type_range(types, from, to) =~= written_type(types[from]));
        assert(written_type(types[from]) + Seq::<char>::empty() =~= written_type(types[from]));
    } else {
        lemma_type_range_first(types, from, to - 1);
        assert(written_type_range(types, from, to) =~= written_type(types[from]) + (
        written_type_range(types, from + 1, to - 1) + written_type(types[to - 1])));
    }
}

/// A type as it is written is not empty.
pub proof fn lemma_written_type_is_not_empty(ty: TypeView)
    ensures
        written_type(ty).len() >= 1,
{
}

/// Where a type that fits is written, it is read back.
pub proof fn lemma_read_type(s: Seq<char>, at: int, ty: TypeView)
    requires
        type_fits(ty),
        occurs(s, at, written_type(ty)),
    ensures
        read_type(s, at) == Some((ty, at + written_type(ty).len())),
    decreases ty, 0nat,
{
    match ty {
        TypeView::Integer(width) => {
            lemma_tag_split(s, at, 'i', number(width as nat));
            lemma_parse_number(s, at + 1, width as nat);
        },
        TypeView::Float64 => {
            reveal(occurs);
            let shown = written_type(ty);
            assert(s[at + 0] == shown[0]);
            assert(s[at + 1] == shown[1]);
        },
        TypeView::Pointer => {
            reveal(occurs);
            let shown = written_type(ty);
            assert(s[at + 0] == shown[0]);
            assert(s[at + 1] == shown[1]);
        },
        TypeView::Opaque(name) => {
            lemma_tag_split(s, at, 'o', text(name));
            lemma_parse_text(s, at + 1, name);
        },
        TypeView::Function(inputs, outputs) => {
            lemma_tag_split(s, at, 'F', written_types(inputs) + written_types(outputs));
            lemma_occurs_split(s, at + 1, written_types(inputs), written_types(outputs));
            lemma_occurs_within(s, at + 1, written_types(inputs));
            lemma_read_types(s, at + 1, inputs);
            lemma_read_types(s, at + 1 + written_types(inputs).len(), outputs);
        },
    }
}

/// Where types that fit are written one after the other, they are read back.
pub proof fn lemma_read_type_items(s: Seq<char>, at: int, types: Seq<TypeView>, from: int)
    requires
        0 <= from <= types.len(),
        forall|k: int| 0 <= k < types.len() ==> type_fits(#[trigger] types[k]),
        occurs(s, at, written_type_range(types, from, types.len() as int)),
    ensures
        read_type_items(s, at, (types.len() - from) as nat) == Some(
            (
                types.subrange(from, types.len() as int),
                at + written_type_range(types, from, types.len() as int).len(),
            ),
        ),
    decreases types, types.len() - from,
{
    let to = types.len() as int;
    if from < to {
        let first = written_type(types[from]);
        lemma_type_range_first(types, from, to);
        lemma_occurs_split(s, at, first, written_type_range(types, from + 1, to));
        lemma_occurs_within(s, at, first);
        lemma_read_type(s, at, types[from]);
        lemma_written_type_is_not_empty(types[from]);
        lemma_read_type_items(s, at + first.len(), types, from + 1);
        assert(seq![types[from]] + types.subrange(from + 1, to) =~= types.subrange(from, to));
    } else {
        assert(types.subrange(from, to) =~= Seq::empty());
    }
}

/// Where a list of types that fit is written, it is read back.
pub proof fn lemma_read_types(s: Seq<char>, at: int, types: Seq<TypeView>)
    requires
        types.len() <= u64::MAX,
        forall|k: int| 0 <= k < types.len() ==> type_fits(#[trigger] types[k]),
        occurs(s, at, written_types(types)),
    ensures
        read_types(s, at) == Some((types, at + written_types(types).len())),
    decreases types, types.len() + 1,
{
    let count = number(types.len());
    lemma_occurs_split(s, at, count, written_type_range(types, 0, types.len() as int));
    lemma_occurs_within(s, at, count);
    lemma_parse_number(s, at, types.len());
    lemma_read_type_items(s, at + count.len(), types, 0);
    assert(types.subrange(0, types.len() as int) =~= types);
}

/// Appends the list of types `types` to `out`.
pub fn write_types(types: &Vec<Type>, out: &mut String)
    ensures
        final(out)@ == old(out)@ + written_types(types_view(types@)),
        types_view(types@).len() <= u64::MAX,
        forall|k: int| 0 <= k < types@.len() ==> type_fits(#[trigger] types_view(types@)[k]),
    decreases types, 0nat,
{
    let count = types.len();
    write_number(out, count as u64);
    let ghost all = types_view(types@);
    let ghost start = out@;
    proof {
        assert(start + written_type_range(all, 0, 0) =~= start);
    }
    let mut k: usize = 0;
    while k < count
        invariant
            k <= count,
            count == types@.len(),
            all == types_view(types@),
            out@ == start + written_type_range(all, 0, k as int),
            forall|j: int| 0 <= j < k ==> type_fits(#[trigger] all[j]),
        decreases count - k,
    {
        write_type(&types[k], out);
        proof {
            assert(all[k as int] == types@[k as int]@);
            assert(out@ =~= start + written_type_range(all, 0, k + 1));
        }
        k += 1;
    }
    proof {
        assert(out@ =~= old(out)@ + written_types(all));
    }
}

/// Appends the type `ty` to `out`.
pub fn write_type(ty: &Type, out: &mut String)
    ensures
        final(out)@ == old(out)@ + written_type(ty@),
        type_fits(ty@),
    decreases ty, 1nat,
{
    proof {
        reveal_strlit("i");
        reveal_strlit("f ");
        reveal_strlit("p ");
        reveal_strlit("o");
        reveal_strlit("F");
        assert("i"@ =~= seq!['i']);
        assert("f "@ =~= seq!['f', ' ']);
        assert("p "@ =~= seq!['p', ' ']);
        assert("o"@ =~= seq!['o']);
        assert("F"@ =~= seq!['F']);
    }
    match ty {
        Type::Integer(width) => {
            out.append("i");
            write_number(out, *width as u64);
            proof {
                assert(final(out)@ =~= old(out)@ + written_type(ty@));
            }
        },
        Type::Float64 => {
            out.append("f ");
        },
        Type::Pointer => {
            out.append("p ");
        },
        Type::Opaque(name) => {
            out.append("o");
            write_text(out, name.as_str());
            proof {
                assert(final(out)@ =~= old(out)@ + written_type(ty@));
            }
        },
        Type::Function(inputs, outputs) => {
            out.append("F");
            write_types(inputs, out);
            write_types(outputs, out);
            proof {
                lemma_function_view(*inputs, *outputs);
                assert(final(out)@ =~= old(out)@ + written_type(ty@));
            }
        },
    }
}

/// Reads the list of types that is written in `source` at `at`.
pub fn read_type_list(source: &str, length: usize, at: usize) -> (found: Option<(Vec<Type>, usize)>)
    requires
        length == source@.len(),
    ensures
        match found {
            Some((types, next)) => read_types(source@, at as int) == Some(
                (types_view(types@), next as int),
            ) && at < next <= length,
            None => read_types(source@, at as int) is None,
        },
    decreases length - at, 1nat,
{
    let (count, first) = match read_number(source, length, at) {
        Some(found) => found,
        None => {
            return None;
        },
    };
    let ghost s = source@;
    let mut types: Vec<Type> = Vec::new();
    let mut next: usize = first;
    let mut done: u64 = 0;
    proof {
        assert(types_view(types@) =~= Seq::empty());
    }
    while done < count
        invariant
            done <= count,
            at < first <= next <= length,
            length == source@.len(),
            s == source@,
            parse_number(s, at as int) == Some((count as nat, first as int)),
            match read_type_items(s, next as int, (count - done) as nat) {
                Some((rest, end)) => read_type_items(s, first as int, count as nat) == Some(
                    (types_view(types@) + rest, end),
                ),
                None => read_type_items(s, first as int, count as nat) is None,
            },
        decreases count - done,
    {
        let ghost got = types_view(types@);
        match read_one_type(source, length, next) {
            Some((ty, after)) => {
                types.push(ty);
                proof {
                    assert(types_view(types@) =~= got.push(ty@));
                    match read_type_items(s, after as int, (count - done - 1) as nat) {
                        Some((rest, end)) => {
                            assert(got + (seq![ty@] + rest) =~= got.push(ty@) + rest);
                        },
                        None => {},
                    }
                }
                next = after;
            },
            None => {
                return None;
            },
        }
        done += 1;
    }
    proof {
        assert(types_view(types@) + Seq::<TypeView>::empty() =~= types_view(types@));
    }
    Some((types, next))
}

/// Reads the type that is written in `source` at `at`.
pub fn read_one_type(source: &str, length: usize, at: usize) -> (found: Option<(Type, usize)>)
    requires
        length == source@.len(),
    ensures
        match found {
            Some((ty, next)) => read_type(source@, at as int) == Some((ty@, next as int)) && at
                < next <= length,
            None => read_type(source@, at as int) is None,
        },
    decreases length - at, 0nat,
{
    if at >= length {
        return None;
    }
    let tag = source.get_char(at);
    if tag == 'i' {
        match read_number(source, length, at + 1) {
            Some((width, next)) => {
                if width <= 0xffff_ffff {
                    Some((Type::Integer(width as u32), next))
                } else {
                    None
                }
            },
            None => None,
        }
    } else if tag == 'f' {
        if has_tag(source, length, at + 1, ' ') {
            Some((Type::Float64, at + 2))
        } else {
            None
        }
    } else if tag == 'p' {
        if has_tag(source, length, at + 1, ' ') {
            Some((Type::Pointer, at + 2))
        } else {
            None
        }
    } else if tag == 'o' {
        match read_text(source, length, at + 1) {
            Some((name, next)) => Some((Type::Opaque(name), next)),
            None => None,
        }
    } else if tag == 'F' {
        let (inputs, middle) = match read_type_list(source, length, at + 1) {
            Some(found) => found,
            None => {
                return None;
            },
        };
        let (outputs, next) = match read_type_list(source, length, middle) {
            Some(found) => found,
            None => {
                return None;
            },
        };
        proof {
            lemma_function_view(inputs, outputs);
        }
        Some((Type::Function(inputs, outputs), next))
    } else {
        None
    }
}

impl Textual for Type {
    type Model = TypeView;

    open spec fn model(&self) -> TypeView {
        self@
    }

    open spec fn fits(value: TypeView) -> bool {
        type_fits(value)
    }

    open spec fn written(value: TypeView) -> Seq<char> {
        written_type(value)
    }

    open spec fn read_at(s: Seq<char>, at: int) -> Option<(TypeView, int)> {
        read_type(s, at)
    }

    proof fn lemma_read_written(s: Seq<char>, at: int, value: TypeView) {
        lemma_read_type(s, at, value);
    }

    fn write(&self, out: &mut String) {
        write_type(self, out);
    }

    fn read(source: &str, length: usize, at: usize) -> (found: Option<(Type, usize)>) {
        read_one_type(source, length, at)
    }
}

} // verus!
