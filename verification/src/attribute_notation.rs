//! The textual form of attributes.
//!
//! An attribute value is written as a letter and what the letter calls
//! for: `u` for the unit, `n` with a number and its type, `t` with a
//! string, `y` with a type, and `I`, `T` and `V` with a list of integers,
//! of strings and of variadicity markers. A named attribute is written as
//! its name and its value.

use vstd::prelude::*;
use crate::attribute::{texts_view, Attribute, AttributeView, NamedAttribute, Variadicity};
use crate::format::{after_tag, has_tag, lemma_tag_split, models, Textual};
use crate::notation::{
    lemma_read_type, read_one_type, read_type, type_fits, write_type, written_type,
};
use crate::text::{
    lemma_occurs_split, lemma_parse_number, lemma_parse_text, number, occurs, parse_number,
    parse_text, read_number, read_text, text, write_number, write_text,
};
use crate::types::Type;

verus! {

/// Whether the attribute value `value` can be written.
pub open spec fn attribute_fits(value: AttributeView) -> bool {
    match value {
        AttributeView::Unit => true,
        AttributeView::Integer { value, ty } => type_fits(ty),
        AttributeView::Text(content) => content.len() <= u64::MAX,
        AttributeView::Type(ty) => type_fits(ty),
        AttributeView::IntegerArray(items) => Vec::<i32>::fits(items),
        AttributeView::TextArray(items) => Vec::<String>::fits(items),
        AttributeView::VariadicityArray(items) => Vec::<Variadicity>::fits(items),
    }
}

/// The attribute value `value` as it is written.
pub open spec fn written_attribute(value: AttributeView) -> Seq<char> {
    match value {
        AttributeView::Unit => seq!['u', ' '],
        AttributeView::Integer { value, ty } => seq!['n'] + (number(value as nat) + written_type(
            ty,
        )),
        AttributeView::Text(content) => seq!['t'] + text(content),
        AttributeView::Type(ty) => seq!['y'] + written_type(ty),
        AttributeView::IntegerArray(items) => seq!['I'] + Vec::<i32>::written(items),
        AttributeView::TextArray(items) => seq!['T'] + Vec::<String>::written(items),
        AttributeView::VariadicityArray(items) => seq!['V'] + Vec::<Variadicity>::written(items),
    }
}

/// The attribute value that is written in `s` at `at`, and the place after it.
pub open spec fn read_attribute(s: Seq<char>, at: int) -> Option<(AttributeView, int)> {
    if at < 0 || at >= s.len() {
        None
    } else if s[at] == 'u' {
        if after_tag(s, at + 1, ' ') is Some {
            Some((AttributeView::Unit, at + 2))
        } else {
            None
        }
    } else if s[at] == 'n' {
        match parse_number(s, at + 1) {
            Some((value, middle)) => match read_type(s, middle) {
                Some((ty, next)) => Some(
                    (AttributeView::Integer { value: value as u64, ty }, next),
                ),
                None => None,
            },
            None => None,
        }
    } else if s[at] == 't' {
        match parse_text(s, at + 1) {
            Some((content, next)) => Some((AttributeView::Text(content), next)),
            None => None,
        }
    } else if s[at] == 'y' {
        match read_type(s, at + 1) {
            Some((ty, next)) => Some((AttributeView::Type(ty), next)),
            None => None,
        }
    } else if s[at] == 'I' {
        match Vec::<i32>::read_at(s, at + 1) {
            Some((items, next)) => Some((AttributeView::IntegerArray(items), next)),
            None => None,
        }
    } else if s[at] == 'T' {
        match Vec::<String>::read_at(s, at + 1) {
            Some((items, next)) => Some((AttributeView::TextArray(items), next)),
            None => None,
        }
    } else if s[at] == 'V' {
        match Vec::<Variadicity>::read_at(s, at + 1) {
            Some((items, next)) => Some((AttributeView::VariadicityArray(items), next)),
            None => None,
        }
    } else {
        None
    }
}

/// Where an attribute value without a list is written, it is read back.
proof fn lemma_read_plain_attribute(s: Seq<char>, at: int, value: AttributeView)
    requires
        attribute_fits(value),
        occurs(s, at, written_attribute(value)),
        value is Unit || value is Integer || value is Text || value is Type,
    ensures
        read_attribute(s, at) == Some((value, at + written_attribute(value).len())),
{
    match value {
        AttributeView::Unit => {
            reveal(occurs);
            let shown = written_attribute(value);
            assert(s[at + 0] == shown[0]);
            assert(s[at + 1] == shown[1]);
        },
        AttributeView::Integer { value: number_value, ty } => {
            let first = number(number_value as nat);
            lemma_tag_split(s, at, 'n', first + written_type(ty));
            lemma_occurs_split(s, at + 1, first, written_type(ty));
            lemma_parse_number(s, at + 1, number_value as nat);
            lemma_read_type(s, at + 1 + first.len(), ty);
        },
        AttributeView::Text(content) => {
            lemma_tag_split(s, at, 't', text(content));
            lemma_parse_text(s, at + 1, content);
        },
        AttributeView::Type(ty) => {
            lemma_tag_split(s, at, 'y', written_type(ty));
            lemma_read_type(s, at + 1, ty);
        },
        _ => {},
    }
}

/// Where a list of integers is written as an attribute, it is read back.
proof fn lemma_read_integer_array(s: Seq<char>, at: int, items: Seq<i32>)
    requires
        Vec::<i32>::fits(items),
        occurs(s, at, written_attribute(AttributeView::IntegerArray(items))),
    ensures
        read_attribute(s, at) == Some(
            (
                AttributeView::IntegerArray(items),
                at + written_attribute(AttributeView::IntegerArray(items)).len(),
            ),
        ),
{
    lemma_tag_split(s, at, 'I', Vec::<i32>::written(items));
    Vec::<i32>::lemma_read_written(s, at + 1, items);
}

/// Where a list of strings is written as an attribute, it is read back.
proof fn lemma_read_text_array(s: Seq<char>, at: int, items: Seq<Seq<char>>)
    requires
        Vec::<String>::fits(items),
        occurs(s, at, written_attribute(AttributeView::TextArray(items))),
    ensures
        read_attribute(s, at) == Some(
            (
                AttributeView::TextArray(items),
                at + written_attribute(AttributeView::TextArray(items)).len(),
            ),
        ),
{
    lemma_tag_split(s, at, 'T', Vec::<String>::written(items));
    Vec::<String>::lemma_read_written(s, at + 1, items);
}

/// Where a list of markers is written as an attribute, it is read back.
proof fn lemma_read_variadicity_array(s: Seq<char>, at: int, items: Seq<Variadicity>)
    requires
        Vec::<Variadicity>::fits(items),
        occurs(s, at, written_attribute(AttributeView::VariadicityArray(items))),
    ensures
        read_attribute(s, at) == Some(
            (
                AttributeView::VariadicityArray(items),
                at + written_attribute(AttributeView::VariadicityArray(items)).len(),
            ),
        ),
{
    lemma_tag_split(s, at, 'V', Vec::<Variadicity>::written(items));
    Vec::<Variadicity>::lemma_read_written(s, at + 1, items);
}

/// Where an attribute value that fits is written, it is read back.
pub proof fn lemma_read_attribute(s: Seq<char>, at: int, value: AttributeView)
    requires
        attribute_fits(value),
        occurs(s, at, written_attribute(value)),
    ensures
        read_attribute(s, at) == Some((value, at + written_attribute(value).len())),
{
    match value {
        AttributeView::IntegerArray(items) => {
            lemma_read_integer_array(s, at, items);
        },
        AttributeView::TextArray(items) => {
            lemma_read_text_array(s, at, items);
        },
        AttributeView::VariadicityArray(items) => {
            lemma_read_variadicity_array(s, at, items);
        },
        _ => {
            lemma_read_plain_attribute(s, at, value);
        },
    }
}

impl Textual for Attribute {
    type Model = AttributeView;

    open spec fn model(&self) -> AttributeView {
        self@
    }

    open spec fn fits(value: AttributeView) -> bool {
        attribute_fits(value)
    }

    open spec fn written(value: AttributeView) -> Seq<char> {
        written_attribute(value)
    }

    open spec fn read_at(s: Seq<char>, at: int) -> Option<(AttributeView, int)> {
        read_attribute(s, at)
    }

    proof fn lemma_read_written(s: Seq<char>, at: int, value: AttributeView) {
        lemma_read_attribute(s, at, value);
    }

    fn write(&self, out: &mut String) {
        proof {
            reveal_strlit("u ");
            reveal_strlit("n");
            reveal_strlit("t");
            reveal_strlit("y");
            reveal_strlit("I");
            reveal_strlit("T");
            reveal_strlit("V");
            assert("u "@ =~= seq!['u', ' ']);
            assert("n"@ =~= seq!['n']);
            assert("t"@ =~= seq!['t']);
            assert("y"@ =~= seq!['y']);
            assert("I"@ =~= seq!['I']);
            assert("T"@ =~= seq!['T']);
            assert("V"@ =~= seq!['V']);
        }
        match self {
            Attribute::Unit => {
                out.append("u ");
            },
            Attribute::Integer { value, ty } => {
                out.append("n");
                write_number(out, *value);
                write_type(ty, out);
                proof {
                    assert(final(out)@ =~= old(out)@ + written_attribute(self@));
                }
            },
            Attribute::Text(content) => {
                out.append("t");
                write_text(out, content.as_str());
                proof {
                    assert(final(out)@ =~= old(out)@ + written_attribute(self@));
                }
            },
            Attribute::Type(ty) => {
                out.append("y");
                write_type(ty, out);
                proof {
                    assert(final(out)@ =~= old(out)@ + written_attribute(self@));
                }
            },
            Attribute::IntegerArray(items) => {
                out.append("I");
                items.write(out);
                proof {
                    assert(models::<i32>(items@) =~= items@);
                    assert(final(out)@ =~= old(out)@ + written_attribute(self@));
                }
            },
            Attribute::TextArray(items) => {
                out.append("T");
                items.write(out);
                proof {
                    assert(models::<String>(items@) =~= texts_view(items@));
                    assert(final(out)@ =~= old(out)@ + written_attribute(self@));
                }
            },
            Attribute::VariadicityArray(items) => {
                out.append("V");
                items.write(out);
                proof {
                    assert(models::<Variadicity>(items@) =~= items@);
                    assert(final(out)@ =~= old(out)@ + written_attribute(self@));
                }
            },
        }
    }

    fn read(source: &str, length: usize, at: usize) -> (found: Option<(Attribute, usize)>) {
        if at >= length {
            return None;
        }
        let tag = source.get_char(at);
        if tag == 'u' {
            if has_tag(source, length, at + 1, ' ') {
                Some((Attribute::Unit, at + 2))
            } else {
                None
            }
        } else if tag == 'n' {
            let (value, middle) = match read_number(source, length, at + 1) {
                Some(found) => found,
                None => {
                    return None;
                },
            };
            match read_one_type(source, length, middle) {
                Some((ty, next)) => Some((Attribute::Integer { value, ty }, next)),
                None => None,
            }
        } else if tag == 't' {
            match read_text(source, length, at + 1) {
                Some((content, next)) => Some((Attribute::Text(content), next)),
                None => None,
            }
        } else if tag == 'y' {
            match read_one_type(source, length, at + 1) {
                Some((ty, next)) => Some((Attribute::Type(ty), next)),
                None => None,
            }
        } else if tag == 'I' {
            match Vec::<i32>::read(source, length, at + 1) {
                Some((items, next)) => {
                    proof {
                        assert(models::<i32>(items@) =~= items@);
                    }
                    Some((Attribute::IntegerArray(items), next))
                },
                None => None,
            }
        } else if tag == 'T' {
            match Vec::<String>::read(source, length, at + 1) {
                Some((items, next)) => {
                    proof {
                        assert(models::<String>(items@) =~= texts_view(items@));
                    }
                    Some((Attribute::TextArray(items), next))
                },
                None => None,
            }
        } else if tag == 'V' {
            match Vec::<Variadicity>::read(source, length, at + 1) {
                Some((items, next)) => {
                    proof {
                        assert(models::<Variadicity>(items@) =~= items@);
                    }
                    Some((Attribute::VariadicityArray(items), next))
                },
                None => None,
            }
        } else {
            None
        }
    }
}

impl Textual for NamedAttribute {
    type Model = (Seq<char>, AttributeView);

    open spec fn model(&self) -> (Seq<char>, AttributeView) {
        self@
    }

    open spec fn fits(value: (Seq<char>, AttributeView)) -> bool {
        value.0.len() <= u64::MAX && attribute_fits(value.1)
    }

    open spec fn written(value: (Seq<char>, AttributeView)) -> Seq<char> {
        text(value.0) + written_attribute(value.1)
    }

    open spec fn read_at(s: Seq<char>, at: int) -> Option<((Seq<char>, AttributeView), int)> {
        match parse_text(s, at) {
            Some((name, middle)) => match read_attribute(s, middle) {
                Some((value, next)) => Some(((name, value), next)),
                None => None,
            },
            None => None,
        }
    }

    proof fn lemma_read_written(s: Seq<char>, at: int, value: (Seq<char>, AttributeView)) {
        lemma_occurs_split(s, at, text(value.0), written_attribute(value.1));
        lemma_parse_text(s, at, value.0);
        lemma_read_attribute(s, at + text(value.0).len(), value.1);
    }

    fn write(&self, out: &mut String) {
        write_text(out, self.name.as_str());
        self.value.write(out);
        proof {
            assert(final(out)@ =~= old(out)@ + Self::written(self@));
        }
    }

    fn read(source: &str, length: usize, at: usize) -> (found: Option<(NamedAttribute, usize)>) {
        let (name, middle) = match read_text(source, length, at) {
            Some(found) => found,
            None => {
                return None;
            },
        };
        match Attribute::read(source, length, middle) {
            Some((value, next)) => Some((NamedAttribute { name, value }, next)),
            None => None,
        }
    }
}

} // verus!
