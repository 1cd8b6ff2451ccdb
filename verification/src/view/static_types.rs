//! Attributes and text whose content is fixed when the view is written.

use crate::view::Position;
use vstd::prelude::*;
use vstd::string::*;

verus! {

/// The markup of an attribute: a space, the key, and the value in double
/// quotes.
pub open spec fn attr_markup(key: Seq<char>, value: Seq<char>) -> Seq<char> {
    seq![' '] + key + seq!['=', '"'] + value + seq!['"']
}

/// The comment that keeps two adjacent text nodes apart.
pub open spec fn text_marker() -> Seq<char> {
    seq!['<', '!', '>']
}

/// The markup of a piece of static text at `position`.
pub open spec fn text_markup(position: Position, text: Seq<char>) -> Seq<char> {
    if position.follows_sibling() {
        text_marker() + text
    } else {
        text
    }
}

/// How a cursor over existing nodes moves to adopt the next one.
#[derive(Clone, Copy, PartialEq, Eq, Structural, Debug)]
pub enum CursorStep {
    /// Down to the first child.
    Child,
    /// Across to the next sibling.
    Sibling,
}

/// An attribute for which both the key and the value are known up front.
#[derive(Clone, Copy, Debug)]
pub struct StaticAttr {
    pub key: &'static str,
    pub value: &'static str,
}

/// The attribute `key="value"`.
pub fn static_attr(key: &'static str, value: &'static str) -> (attr: StaticAttr)
    ensures
        attr.key@ == key@,
        attr.value@ == value@,
{
    StaticAttr { key, value }
}

impl StaticAttr {
    /// Appends the attribute's markup to a template. The position is left
    /// alone: an attribute is no node.
    pub fn to_template(&self, buf: &mut String, _position: &mut Position)
        ensures
            final(buf)@ == old(buf)@ + attr_markup(self.key@, self.value@),
            *final(_position) == *old(_position),
    {
        proof {
            reveal_strlit(" ");
            reveal_strlit("=\"");
            reveal_strlit("\"");
        }
        buf.append(" ");
        buf.append(self.key);
        buf.append("=\"");
        buf.append(self.value);
        buf.append("\"");
        proof {
            assert(buf@ =~= old(buf)@ + attr_markup(self.key@, self.value@));
        }
    }

    /// Appends the attribute's markup to a rendered page. Class and style
    /// are collected elsewhere and are left alone.
    pub fn to_html(self, buf: &mut String, _class: &mut String, _style: &mut String)
        ensures
            final(buf)@ == old(buf)@ + attr_markup(self.key@, self.value@),
            final(_class)@ == old(_class)@,
            final(_style)@ == old(_style)@,
    {
        let mut position = Position::Current;
        self.to_template(buf, &mut position);
    }

    /// What has to be set on a freshly created element: the key and the
    /// value.
    pub fn build(self) -> (pair: (&'static str, &'static str))
        ensures
            pair.0@ == self.key@,
            pair.1@ == self.value@,
    {
        (self.key, self.value)
    }
}

/// A piece of text that is known up front.
#[derive(Clone, Copy, Debug)]
pub struct Static {
    pub value: &'static str,
}

impl Static {
    /// The text of the node that has to be created for this piece.
    pub fn build(self) -> (text: Option<&'static str>)
        ensures
            text matches Some(t) && t@ == self.value@,
    {
        Some(self.value)
    }

    /// Appends the text to a rendered page, after a marker where the text
    /// would otherwise run into the sibling before it.
    pub fn to_html(self, buf: &mut String, position: &Position)
        ensures
            final(buf)@ == old(buf)@ + text_markup(*position, self.value@),
    {
        proof {
            reveal_strlit("<!>");
        }
        match position {
            Position::NextChild | Position::LastChild => {
                buf.append("<!>");
            },
            _ => {},
        }
        buf.append(self.value);
        proof {
            assert(buf@ =~= old(buf)@ + text_markup(*position, self.value@));
        }
    }

    /// Adopts the text node that a rendered page holds for this piece:
    /// says which way the cursor has to move, and leaves the position at
    /// `NextChild`. Nothing is kept of the node, since it never changes.
    pub fn hydrate(self, position: &mut Position) -> (step: CursorStep)
        ensures
            step == (if *old(position) == Position::FirstChild {
                CursorStep::Child
            } else {
                CursorStep::Sibling
            }),
            *final(position) == Position::NextChild,
    {
        let step = match position {
            Position::FirstChild => CursorStep::Child,
            _ => CursorStep::Sibling,
        };
        *position = Position::NextChild;
        step
    }

    /// Appends the text to a template, after a marker where the text would
    /// otherwise run into the sibling before it, and leaves the position at
    /// `NextChild`.
    pub fn to_template(&self, buf: &mut String, position: &mut Position)
        ensures
            final(buf)@ == old(buf)@ + text_markup(*old(position), self.value@),
            *final(position) == Position::NextChild,
    {
        proof {
            reveal_strlit("<!>");
        }
        match position {
            Position::NextChild | Position::LastChild => {
                buf.append("<!>");
            },
            _ => {},
        }
        buf.append(self.value);
        proof {
            assert(buf@ =~= old(buf)@ + text_markup(*old(position), self.value@));
        }
        *position = Position::NextChild;
    }
}

} // verus!
