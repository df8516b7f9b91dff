//! The textual form of values: what each kind of value looks like when it
//! is written, how it is read, and that what is written is read back.

use vstd::prelude::*;
use crate::attribute::Variadicity;
use crate::ir::ValueRef;
use crate::text::{
    lemma_occurs_split, lemma_parse_number, lemma_parse_text, number, occurs, parse_number,
    parse_text, read_number, read_text, text, write_number, write_text,
};

verus! {

/// A kind of value that has a textual form.
pub trait Textual: Sized {
    /// The mathematical value of a value of this kind.
    type Model;

    /// The mathematical value of `self`.
    spec fn model(&self) -> Self::Model;

    /// Whether `value` can be written: whether every number and length in
    /// it is one that can be read again.
    spec fn fits(value: Self::Model) -> bool;

    /// `value` as it is written.
    spec fn written(value: Self::Model) -> Seq<char>;

    /// The value that is written in `s` at `at`, and the place after it.
    spec fn read_at(s: Seq<char>, at: int) -> Option<(Self::Model, int)>;

    /// Where a value that fits is written, it is read back.
    proof fn lemma_read_written(s: Seq<char>, at: int, value: Self::Model)
        requires
            Self::fits(value),
            occurs(s, at, Self::written(value)),
        ensures
            Self::read_at(s, at) == Some((value, at + Self::written(value).len())),
    ;

    /// Appends `self` to `out`.
    fn write(&self, out: &mut String)
        ensures
            final(out)@ == old(out)@ + Self::written(self.model()),
            Self::fits(self.model()),
    ;

    /// Reads the value that is written in `source` at `at`.
    fn read(source: &str, length: usize, at: usize) -> (found: Option<(Self, usize)>)
        requires
            length == source@.len(),
        ensures
            match found {
                Some((value, next)) => Self::read_at(source@, at as int) == Some(
                    (value.model(), next as int),
                ) && at <= next <= length,
                None => Self::read_at(source@, at as int) is None,
            },
    ;
}

impl Textual for usize {
    type Model = usize;

    open spec fn model(&self) -> usize {
        *self
    }

    open spec fn fits(value: usize) -> bool {
        true
    }

    open spec fn written(value: usize) -> Seq<char> {
        number(value as nat)
    }

    open spec fn read_at(s: Seq<char>, at: int) -> Option<(usize, int)> {
        match parse_number(s, at) {
            Some((n, next)) => if n <= usize::MAX {
                Some((n as usize, next))
            } else {
                None
            },
            None => None,
        }
    }

    proof fn lemma_read_written(s: Seq<char>, at: int, value: usize) {
        lemma_parse_number(s, at, value as nat);
    }

    fn write(&self, out: &mut String) {
        write_number(out, *self as u64);
    }

    fn read(source: &str, length: usize, at: usize) -> (found: Option<(usize, usize)>) {
        match read_number(source, length, at) {
            Some((n, next)) => {
                if n <= usize::MAX as u64 {
                    Some((n as usize, next))
                } else {
                    None
                }
            },
            None => None,
        }
    }
}

impl Textual for u64 {
    type Model = u64;

    open spec fn model(&self) -> u64 {
        *self
    }

    open spec fn fits(value: u64) -> bool {
        true
    }

    open spec fn written(value: u64) -> Seq<char> {
        number(value as nat)
    }

    open spec fn read_at(s: Seq<char>, at: int) -> Option<(u64, int)> {
        match parse_number(s, at) {
            Some((n, next)) => Some((n as u64, next)),
            None => None,
        }
    }

    proof fn lemma_read_written(s: Seq<char>, at: int, value: u64) {
        lemma_parse_number(s, at, value as nat);
    }

    fn write(&self, out: &mut String) {
        write_number(out, *self);
    }

    fn read(source: &str, length: usize, at: usize) -> (found: Option<(u64, usize)>) {
        read_number(source, length, at)
    }
}

impl Textual for u32 {
    type Model = u32;

    open spec fn model(&self) -> u32 {
        *self
    }

    open spec fn fits(value: u32) -> bool {
        true
    }

    open spec fn written(value: u32) -> Seq<char> {
        number(value as nat)
    }

    open spec fn read_at(s: Seq<char>, at: int) -> Option<(u32, int)> {
        match parse_number(s, at) {
            Some((n, next)) => if n <= u32::MAX {
                Some((n as u32, next))
            } else {
                None
            },
            None => None,
        }
    }

    proof fn lemma_read_written(s: Seq<char>, at: int, value: u32) {
        lemma_parse_number(s, at, value as nat);
    }

    fn write(&self, out: &mut String) {
        write_number(out, *self as u64);
    }

    fn read(source: &str, length: usize, at: usize) -> (found: Option<(u32, usize)>) {
        match read_number(source, length, at) {
            Some((n, next)) => {
                if n <= 0xffff_ffff {
                    Some((n as u32, next))
                } else {
                    None
                }
            },
            None => None,
        }
    }
}

impl Textual for bool {
    type Model = bool;

    open spec fn model(&self) -> bool {
        *self
    }

    open spec fn fits(value: bool) -> bool {
        true
    }

    open spec fn written(value: bool) -> Seq<char> {
        number(
            if value {
                1
            } else {
                0
            },
        )
    }

    open spec fn read_at(s: Seq<char>, at: int) -> Option<(bool, int)> {
        match parse_number(s, at) {
            Some((n, next)) => if n <= 1 {
                Some((n == 1, next))
            } else {
                None
            },
            None => None,
        }
    }

    proof fn lemma_read_written(s: Seq<char>, at: int, value: bool) {
        lemma_parse_number(
            s,
            at,
            if value {
                1
            } else {
                0
            },
        );
    }

    fn write(&self, out: &mut String) {
        write_number(
            out,
            if *self {
                1
            } else {
                0
            },
        );
    }

    fn read(source: &str, length: usize, at: usize) -> (found: Option<(bool, usize)>) {
        match read_number(source, length, at) {
            Some((n, next)) => {
                if n <= 1 {
                    Some((n == 1, next))
                } else {
                    None
                }
            },
            None => None,
        }
    }
}

impl Textual for String {
    type Model = Seq<char>;

    open spec fn model(&self) -> Seq<char> {
        self@
    }

    open spec fn fits(value: Seq<char>) -> bool {
        value.len() <= u64::MAX
    }

    open spec fn written(value: Seq<char>) -> Seq<char> {
        text(value)
    }

    open spec fn read_at(s: Seq<char>, at: int) -> Option<(Seq<char>, int)> {
        parse_text(s, at)
    }

    proof fn lemma_read_written(s: Seq<char>, at: int, value: Seq<char>) {
        lemma_parse_text(s, at, value);
    }

    fn write(&self, out: &mut String) {
        write_text(out, self.as_str());
    }

    fn read(source: &str, length: usize, at: usize) -> (found: Option<(String, usize)>) {
        read_text(source, length, at)
    }
}

/// The place after the one character `tag`, if it stands in `s` at `at`.
pub open spec fn after_tag(s: Seq<char>, at: int, tag: char) -> Option<int> {
    if 0 <= at < s.len() && s[at] == tag {
        Some(at + 1)
    } else {
        None
    }
}

/// Whether the character `tag` stands in `source` at `at`.
pub fn has_tag(source: &str, length: usize, at: usize, tag: char) -> (found: bool)
    requires
        length == source@.len(),
    ensures
        found == (after_tag(source@, at as int, tag) is Some),
        found ==> at < length,
{
    at < length && source.get_char(at) == tag
}

/// Where a character and more is written, the character stands first.
pub proof fn lemma_tag_split(s: Seq<char>, at: int, tag: char, rest: Seq<char>)
    requires
        occurs(s, at, seq![tag] + rest),
    ensures
        after_tag(s, at, tag) == Some(at + 1),
        occurs(s, at + 1, rest),
{
    reveal(occurs);
    lemma_occurs_split(s, at, seq![tag], rest);
    assert(s[at + 0] == seq![tag][0]);
}

impl Textual for i32 {
    type Model = i32;

    open spec fn model(&self) -> i32 {
        *self
    }

    open spec fn fits(value: i32) -> bool {
        true
    }

    open spec fn written(value: i32) -> Seq<char> {
        if value < 0 {
            seq!['-'] + number((-value) as nat)
        } else {
            seq!['+'] + number(value as nat)
        }
    }

    open spec fn read_at(s: Seq<char>, at: int) -> Option<(i32, int)> {
        if after_tag(s, at, '-') is Some {
            match parse_number(s, at + 1) {
                Some((n, next)) => if 1 <= n <= 0x8000_0000 {
                    Some(((-n) as i32, next))
                } else {
                    None
                },
                None => None,
            }
        } else if after_tag(s, at, '+') is Some {
            match parse_number(s, at + 1) {
                Some((n, next)) => if n <= 0x7fff_ffff {
                    Some((n as i32, next))
                } else {
                    None
                },
                None => None,
            }
        } else {
            None
        }
    }

    proof fn lemma_read_written(s: Seq<char>, at: int, value: i32) {
        if value < 0 {
            lemma_tag_split(s, at, '-', number((-value) as nat));
            lemma_parse_number(s, at + 1, (-value) as nat);
        } else {
            lemma_tag_split(s, at, '+', number(value as nat));
            lemma_parse_number(s, at + 1, value as nat);
        }
    }

    fn write(&self, out: &mut String) {
        proof {
            reveal_strlit("-");
            reveal_strlit("+");
            assert("-"@ =~= seq!['-']);
            assert("+"@ =~= seq!['+']);
        }
        if *self < 0 {
            out.append("-");
            let magnitude: u64 = (-(*self as i64)) as u64;
            write_number(out, magnitude);
            proof {
                assert(final(out)@ =~= old(out)@ + Self::written(*self));
            }
        } else {
            out.append("+");
            write_number(out, *self as u64);
            proof {
                assert(final(out)@ =~= old(out)@ + Self::written(*self));
            }
        }
    }

    fn read(source: &str, length: usize, at: usize) -> (found: Option<(i32, usize)>) {
        if has_tag(source, length, at, '-') {
            match read_number(source, length, at + 1) {
                Some((n, next)) => {
                    if 1 <= n && n <= 0x8000_0000 {
                        let value: i64 = -(n as i64);
                        Some((value as i32, next))
                    } else {
                        None
                    }
                },
                None => None,
            }
        } else if has_tag(source, length, at, '+') {
            match read_number(source, length, at + 1) {
                Some((n, next)) => {
                    if n <= 0x7fff_ffff {
                        Some((n as i32, next))
                    } else {
                        None
                    }
                },
                None => None,
            }
        } else {
            None
        }
    }
}

impl Textual for Variadicity {
    type Model = Variadicity;

    open spec fn model(&self) -> Variadicity {
        *self
    }

    open spec fn fits(value: Variadicity) -> bool {
        true
    }

    open spec fn written(value: Variadicity) -> Seq<char> {
        match value {
            Variadicity::Single => seq!['s', ' '],
            Variadicity::Optional => seq!['o', ' '],
            Variadicity::Variadic => seq!['v', ' '],
        }
    }

    open spec fn read_at(s: Seq<char>, at: int) -> Option<(Variadicity, int)> {
        if after_tag(s, at + 1, ' ') is Some {
            if after_tag(s, at, 's') is Some {
                Some((Variadicity::Single, at + 2))
            } else if after_tag(s, at, 'o') is Some {
                Some((Variadicity::Optional, at + 2))
            } else if after_tag(s, at, 'v') is Some {
                Some((Variadicity::Variadic, at + 2))
            } else {
                None
            }
        } else {
            None
        }
    }

    proof fn lemma_read_written(s: Seq<char>, at: int, value: Variadicity) {
        reveal(occurs);
        let shown = Self::written(value);
        assert(s[at + 0] == shown[0]);
        assert(s[at + 1] == shown[1]);
    }

    fn write(&self, out: &mut String) {
        proof {
            reveal_strlit("s ");
            reveal_strlit("o ");
            reveal_strlit("v ");
            assert("s "@ =~= seq!['s', ' ']);
            assert("o "@ =~= seq!['o', ' ']);
            assert("v "@ =~= seq!['v', ' ']);
        }
        match self {
            Variadicity::Single => out.append("s "),
            Variadicity::Optional => out.append("o "),
            Variadicity::Variadic => out.append("v "),
        }
    }

    fn read(source: &str, length: usize, at: usize) -> (found: Option<(Variadicity, usize)>) {
        if at >= length || !has_tag(source, length, at + 1, ' ') {
            return None;
        }
        if has_tag(source, length, at, 's') {
            Some((Variadicity::Single, at + 2))
        } else if has_tag(source, length, at, 'o') {
            Some((Variadicity::Optional, at + 2))
        } else if has_tag(source, length, at, 'v') {
            Some((Variadicity::Variadic, at + 2))
        } else {
            None
        }
    }
}

impl Textual for ValueRef {
    type Model = ValueRef;

    open spec fn model(&self) -> ValueRef {
        *self
    }

    open spec fn fits(value: ValueRef) -> bool {
        true
    }

    open spec fn written(value: ValueRef) -> Seq<char> {
        match value {
            ValueRef::BlockArgument { block, index } => seq!['a'] + (number(block as nat) + number(
                index as nat,
            )),
            ValueRef::OperationResult { operation, index } => seq!['r'] + (number(operation as nat)
                + number(index as nat)),
        }
    }

    open spec fn read_at(s: Seq<char>, at: int) -> Option<(ValueRef, int)> {
        match (usize::read_at(s, at + 1)) {
            Some((first, middle)) => match usize::read_at(s, middle) {
                Some((second, next)) => {
                    if after_tag(s, at, 'a') is Some {
                        Some((ValueRef::BlockArgument { block: first, index: second }, next))
                    } else if after_tag(s, at, 'r') is Some {
                        Some((ValueRef::OperationResult { operation: first, index: second }, next))
                    } else {
                        None
                    }
                },
                None => None,
            },
            None => None,
        }
    }

    proof fn lemma_read_written(s: Seq<char>, at: int, value: ValueRef) {
        match value {
            ValueRef::BlockArgument { block, index } => {
                lemma_tag_split(s, at, 'a', number(block as nat) + number(index as nat));
                lemma_occurs_split(s, at + 1, number(block as nat), number(index as nat));
                lemma_parse_number(s, at + 1, block as nat);
                lemma_parse_number(s, at + 1 + number(block as nat).len(), index as nat);
            },
            ValueRef::OperationResult { operation, index } => {
                lemma_tag_split(s, at, 'r', number(operation as nat) + number(index as nat));
                lemma_occurs_split(s, at + 1, number(operation as nat), number(index as nat));
                lemma_parse_number(s, at + 1, operation as nat);
                lemma_parse_number(s, at + 1 + number(operation as nat).len(), index as nat);
            },
        }
    }

    fn write(&self, out: &mut String) {
        proof {
            reveal_strlit("a");
            reveal_strlit("r");
            assert("a"@ =~= seq!['a']);
            assert("r"@ =~= seq!['r']);
        }
        match self {
            ValueRef::BlockArgument { block, index } => {
                out.append("a");
                write_number(out, *block as u64);
                write_number(out, *index as u64);
                proof {
                    assert(final(out)@ =~= old(out)@ + Self::written(*self));
                }
            },
            ValueRef::OperationResult { operation, index } => {
                out.append("r");
                write_number(out, *operation as u64);
                write_number(out, *index as u64);
                proof {
                    assert(final(out)@ =~= old(out)@ + Self::written(*self));
                }
            },
        }
    }

    fn read(source: &str, length: usize, at: usize) -> (found: Option<(ValueRef, usize)>) {
        if at >= length {
            return None;
        }
        let (first, middle) = match usize::read(source, length, at + 1) {
            Some(found) => found,
            None => {
                return None;
            },
        };
        let (second, next) = match usize::read(source, length, middle) {
            Some(found) => found,
            None => {
                return None;
            },
        };
        if has_tag(source, length, at, 'a') {
            Some((ValueRef::BlockArgument { block: first, index: second }, next))
        } else if has_tag(source, length, at, 'r') {
            Some((ValueRef::OperationResult { operation: first, index: second }, next))
        } else {
            None
        }
    }
}

/// The items `items` as they are written, one after the other.
pub open spec fn written_items<T: Textual>(items: Seq<T::Model>) -> Seq<char>
    decreases items.len(),
{
    if items.len() == 0 {
        Seq::empty()
    } else {
        T::written(items[0]) + written_items::<T>(items.drop_first())
    }
}

/// The `count` items that are written in `s` from `at` on, and the place
/// after them.
pub open spec fn read_items<T: Textual>(s: Seq<char>, at: int, count: nat) -> Option<
    (Seq<T::Model>, int),
>
    decreases count,
{
    if count == 0 {
        Some((Seq::empty(), at))
    } else {
        match T::read_at(s, at) {
            Some((first, next)) => match read_items::<T>(s, next, (count - 1) as nat) {
                Some((rest, end)) => Some((seq![first] + rest, end)),
                None => None,
            },
            None => None,
        }
    }
}

/// Whether every one of `items` fits.
pub open spec fn all_fit<T: Textual>(items: Seq<T::Model>) -> bool {
    forall|k: int| 0 <= k < items.len() ==> T::fits(#[trigger] items[k])
}

/// Where items that fit are written one after the other, they are read back.
pub proof fn lemma_read_items<T: Textual>(s: Seq<char>, at: int, items: Seq<T::Model>)
    requires
        all_fit::<T>(items),
        occurs(s, at, written_items::<T>(items)),
    ensures
        read_items::<T>(s, at, items.len()) == Some(
            (items, at + written_items::<T>(items).len()),
        ),
    decreases items.len(),
{
    if items.len() > 0 {
        let first = T::written(items[0]);
        let rest = items.drop_first();
        lemma_occurs_split(s, at, first, written_items::<T>(rest));
        T::lemma_read_written(s, at, items[0]);
        assert(all_fit::<T>(rest)) by {
            assert forall|k: int| 0 <= k < rest.len() implies T::fits(#[trigger] rest[k]) by {
                assert(rest[k] == items[k + 1]);
            }
        }
        lemma_read_items::<T>(s, at + first.len(), rest);
        assert(seq![items[0]] + rest =~= items);
    } else {
        assert(items =~= Seq::empty());
    }
}

/// Items written one after the other, with one more at the end.
pub proof fn lemma_written_items_push<T: Textual>(items: Seq<T::Model>, last: T::Model)
    ensures
        written_items::<T>(items.push(last)) == written_items::<T>(items) + T::written(last),
    decreases items.len(),
{
    let all = items.push(last);
    if items.len() == 0 {
        assert(all.drop_first() =~= Seq::empty());
        assert(all[0] == last);
        assert(written_items::<T>(all.drop_first()) =~= Seq::empty());
        assert(written_items::<T>(items) =~= Seq::empty());
        assert(written_items::<T>(all) =~= T::written(last));
        assert(written_items::<T>(items) + T::written(last) =~= T::written(last));
    } else {
        assert(all.drop_first() =~= items.drop_first().push(last));
        lemma_written_items_push::<T>(items.drop_first(), last);
        assert(written_items::<T>(all) =~= written_items::<T>(items) + T::written(last));
    }
}

/// The models of a list of values, in order.
pub open spec fn models<T: Textual>(values: Seq<T>) -> Seq<T::Model> {
    Seq::new(values.len(), |k: int| values[k].model())
}

impl<T: Textual> Textual for Vec<T> {
    type Model = Seq<T::Model>;

    open spec fn model(&self) -> Seq<T::Model> {
        models::<T>(self@)
    }

    open spec fn fits(value: Seq<T::Model>) -> bool {
        value.len() <= u64::MAX && all_fit::<T>(value)
    }

    open spec fn written(value: Seq<T::Model>) -> Seq<char> {
        number(value.len()) + written_items::<T>(value)
    }

    open spec fn read_at(s: Seq<char>, at: int) -> Option<(Seq<T::Model>, int)> {
        match parse_number(s, at) {
            Some((count, next)) => read_items::<T>(s, next, count),
            None => None,
        }
    }

    proof fn lemma_read_written(s: Seq<char>, at: int, value: Seq<T::Model>) {
        lemma_occurs_split(s, at, number(value.len()), written_items::<T>(value));
        lemma_parse_number(s, at, value.len());
        lemma_read_items::<T>(s, at + number(value.len()).len(), value);
    }

    fn write(&self, out: &mut String) {
        let count = self.len();
        write_number(out, count as u64);
        let ghost all = models::<T>(self@);
        let ghost start = out@;
        proof {
            assert(all.subrange(0, 0) =~= Seq::empty());
            assert(start + written_items::<T>(all.subrange(0, 0)) =~= start);
        }
        let mut k: usize = 0;
        while k < count
            invariant
                k <= count,
                count == self@.len(),
                all == models::<T>(self@),
                out@ == start + written_items::<T>(all.subrange(0, k as int)),
                all_fit::<T>(all.subrange(0, k as int)),
            decreases count - k,
        {
            self[k].write(out);
            proof {
                let shorter = all.subrange(0, k as int);
                let longer = all.subrange(0, k + 1);
                assert(longer =~= shorter.push(all[k as int]));
                lemma_written_items_push::<T>(shorter, all[k as int]);
                assert(out@ =~= start + written_items::<T>(longer));
                assert forall|j: int| 0 <= j < longer.len() implies T::fits(
                    #[trigger] longer[j],
                ) by {
                    if j < k {
                        assert(longer[j] == shorter[j]);
                    }
                }
            }
            k += 1;
        }
        proof {
            assert(all.subrange(0, count as int) =~= all);
            assert(out@ =~= old(out)@ + Self::written(all));
        }
    }

    fn read(source: &str, length: usize, at: usize) -> (found: Option<(Vec<T>, usize)>) {
        let (count, first) = match read_number(source, length, at) {
            Some(found) => found,
            None => {
                return None;
            },
        };
        let ghost s = source@;
        let mut items: Vec<T> = Vec::new();
        let mut next: usize = first;
        let mut done: u64 = 0;
        proof {
            assert(models::<T>(items@) =~= Seq::empty());
        }
        while done < count
            invariant
                done <= count,
                at <= next <= length,
                length == source@.len(),
                s == source@,
                parse_number(s, at as int) == Some((count as nat, first as int)),
                match read_items::<T>(s, next as int, (count - done) as nat) {
                    Some((rest, end)) => read_items::<T>(s, first as int, count as nat) == Some(
                        (models::<T>(items@) + rest, end),
                    ),
                    None => read_items::<T>(s, first as int, count as nat) is None,
                },
            decreases count - done,
        {
            let ghost got = models::<T>(items@);
            match T::read(source, length, next) {
                Some((item, after)) => {
                    items.push(item);
                    proof {
                        assert(models::<T>(items@) =~= got.push(item.model()));
                        match read_items::<T>(s, after as int, (count - done - 1) as nat) {
                            Some((rest, end)) => {
                                assert(got + (seq![item.model()] + rest) =~= got.push(
                                    item.model(),
                                ) + rest);
                            },
                            None => {},
                        }
                    }
                    next = after;
                },
                None => {
                    return None;
                },
            }
            done += 1;
        }
        proof {
            assert(models::<T>(items@) + Seq::<T::Model>::empty() =~= models::<T>(items@));
        }
        Some((items, next))
    }
}

} // verus!
