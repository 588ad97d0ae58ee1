//! Fields whose alternatives exclude one another: a record is identified by
//! a reference or by a name, and a coordinate is matched exactly, by a bound,
//! or not at all. Each is edited through one line of text.
use vstd::prelude::*;
use vstd::string::StringExecFns;
use crate::numtext::{decimal, decimal_text, i32_of_text, lemma_decimal_round_trip, parse_decimal};

verus! {

/// What a record is known by: a reference to another entity, a display
/// name, or nothing.
#[derive(Clone, Debug)]
pub enum Ident {
    Unset,
    Ref(i32),
    Name(String),
}

/// The mathematical form of an [`Ident`].
pub enum IdentView {
    Unset,
    Ref(i32),
    Name(Seq<char>),
}

impl View for Ident {
    type V = IdentView;

    open spec fn view(&self) -> IdentView {
        match self {
            Ident::Unset => IdentView::Unset,
            Ident::Ref(r) => IdentView::Ref(*r),
            Ident::Name(n) => IdentView::Name(n@),
        }
    }
}

impl IdentView {
    pub open spec fn reference(self) -> Option<i32> {
        match self {
            IdentView::Ref(r) => Some(r),
            _ => None,
        }
    }

    pub open spec fn name(self) -> Option<Seq<char>> {
        match self {
            IdentView::Name(n) => Some(n),
            _ => None,
        }
    }
}

/// The identity that a line of text gives: an integer is a reference, other
/// non-empty text is a name, and empty text clears both.
pub open spec fn ident_of_text(text: Seq<char>) -> IdentView {
    match i32_of_text(text, 10) {
        Some(r) => IdentView::Ref(r),
        None => if text.len() == 0 {
            IdentView::Unset
        } else {
            IdentView::Name(text)
        },
    }
}

/// The line of text that shows an identity.
pub open spec fn ident_text(id: IdentView) -> Seq<char> {
    match id {
        IdentView::Unset => Seq::empty(),
        IdentView::Ref(r) => decimal_text(r as int),
        IdentView::Name(n) => n,
    }
}

impl Ident {
    /// Reads an identity from a line of text; see [`ident_of_text`].
    pub fn from_text(text: &str) -> (r: Ident)
        ensures
            r@ == ident_of_text(text@),
    {
        match parse_decimal(text) {
            Some(n) => Ident::Ref(n),
            None => if text.unicode_len() == 0 {
                Ident::Unset
            } else {
                Ident::Name(text.to_owned())
            },
        }
    }

    /// The line of text that shows this identity.
    pub fn text(&self) -> (r: String)
        ensures
            r@ == ident_text(self@),
    {
        match self {
            Ident::Unset => String::new(),
            Ident::Ref(n) => decimal(*n),
            Ident::Name(s) => s.clone(),
        }
    }

    /// Makes the record known by the reference `r`; any name is cleared.
    pub fn set_reference(&mut self, r: i32)
        ensures
            final(self)@ == IdentView::Ref(r),
            final(self)@.reference() == Some(r),
            final(self)@.name() is None,
    {
        *self = Ident::Ref(r);
    }

    /// Makes the record known by the name `n`; any reference is cleared.
    pub fn set_name(&mut self, n: String)
        ensures
            final(self)@ == IdentView::Name(n@),
            final(self)@.name() == Some(n@),
            final(self)@.reference() is None,
    {
        *self = Ident::Name(n);
    }

    /// Sets the identity from a line of text; see [`ident_of_text`].
    pub fn set_text(&mut self, text: &str)
        ensures
            final(self)@ == ident_of_text(text@),
            final(self)@.reference() is Some ==> final(self)@.name() is None,
    {
        *self = Ident::from_text(text);
    }

    /// The reference, when the record is known by one.
    pub fn reference(&self) -> (r: Option<i32>)
        ensures
            r == self@.reference(),
    {
        match self {
            Ident::Ref(n) => Some(*n),
            _ => None,
        }
    }

    /// The name, when the record is known by one.
    pub fn name(&self) -> (r: Option<String>)
        ensures
            match r {
                Some(s) => self@.name() == Some(s@),
                None => self@.name() is None,
            },
    {
        match self {
            Ident::Name(s) => Some(s.clone()),
            _ => None,
        }
    }
}

/// A predicate on one coordinate: any value, exactly `n`, greater than `n`,
/// or less than `n`.
#[derive(Clone, Copy, PartialEq, Eq, Structural, Debug)]
pub enum Coord {
    Any,
    Exact(i32),
    Above(i32),
    Below(i32),
}

impl Coord {
    pub open spec fn spec_exact(&self) -> Option<i32> {
        match self {
            Coord::Exact(n) => Some(*n),
            _ => None,
        }
    }

    pub open spec fn spec_lower(&self) -> Option<i32> {
        match self {
            Coord::Above(n) => Some(*n),
            _ => None,
        }
    }

    pub open spec fn spec_upper(&self) -> Option<i32> {
        match self {
            Coord::Below(n) => Some(*n),
            _ => None,
        }
    }

    /// The exact value matched, if any.
    #[verifier::when_used_as_spec(spec_exact)]
    pub fn exact(&self) -> (r: Option<i32>)
        ensures
            r == self.spec_exact(),
    {
        match self {
            Coord::Exact(n) => Some(*n),
            _ => None,
        }
    }

    /// The bound that matched values are greater than, if any.
    #[verifier::when_used_as_spec(spec_lower)]
    pub fn lower(&self) -> (r: Option<i32>)
        ensures
            r == self.spec_lower(),
    {
        match self {
            Coord::Above(n) => Some(*n),
            _ => None,
        }
    }

    /// The bound that matched values are less than, if any.
    #[verifier::when_used_as_spec(spec_upper)]
    pub fn upper(&self) -> (r: Option<i32>)
        ensures
            r == self.spec_upper(),
    {
        match self {
            Coord::Below(n) => Some(*n),
            _ => None,
        }
    }

    /// Matches exactly `n`; both bounds are cleared.
    pub fn set_exact(&mut self, n: i32)
        ensures
            final(self).exact() == Some(n),
            final(self).lower() is None,
            final(self).upper() is None,
    {
        *self = Coord::Exact(n);
    }

    /// Matches values greater than `n`; the exact value and the upper bound
    /// are cleared.
    pub fn set_lower(&mut self, n: i32)
        ensures
            final(self).lower() == Some(n),
            final(self).exact() is None,
            final(self).upper() is None,
    {
        *self = Coord::Above(n);
    }

    /// Matches values less than `n`; the exact value and the lower bound are
    /// cleared.
    pub fn set_upper(&mut self, n: i32)
        ensures
            final(self).upper() == Some(n),
            final(self).exact() is None,
            final(self).lower() is None,
    {
        *self = Coord::Below(n);
    }

    /// Sets the coordinate from a line of text; see [`coord_of_text`]. At
    /// most one of the exact value and the two bounds is set after.
    pub fn set_text(&mut self, text: &str)
        ensures
            *final(self) == coord_of_text(text@),
            final(self).exact() is Some ==> final(self).lower() is None && final(self).upper() is None,
            final(self).lower() is Some ==> final(self).exact() is None && final(self).upper() is None,
            final(self).upper() is Some ==> final(self).exact() is None && final(self).lower() is None,
    {
        *self = Coord::from_text(text);
    }

    /// Reads a coordinate from a line of text; see [`coord_of_text`].
    pub fn from_text(text: &str) -> (r: Coord)
        ensures
            r == coord_of_text(text@),
    {
        let len = text.unicode_len();
        if len > 0 && text.get_char(0) == '<' {
            match parse_decimal(text.substring_char(1, len)) {
                Some(n) => Coord::Below(n),
                None => Coord::Any,
            }
        } else if len > 0 && text.get_char(0) == '>' {
            match parse_decimal(text.substring_char(1, len)) {
                Some(n) => Coord::Above(n),
                None => Coord::Any,
            }
        } else {
            match parse_decimal(text) {
                Some(n) => Coord::Exact(n),
                None => Coord::Any,
            }
        }
    }

    /// The line of text that shows this coordinate.
    pub fn text(&self) -> (r: String)
        ensures
            r@ == coord_text(*self),
    {
        match self {
            Coord::Any => String::new(),
            Coord::Exact(n) => decimal(*n),
            Coord::Above(n) => {
                let mut s = ">".to_owned();
                let d = decimal(*n);
                s.append(d.as_str());
                proof {
                    reveal_strlit(">");
                }
                s
            },
            Coord::Below(n) => {
                let mut s = "<".to_owned();
                let d = decimal(*n);
                s.append(d.as_str());
                proof {
                    reveal_strlit("<");
                }
                s
            },
        }
    }
}

/// The coordinate that a line of text gives: text after a leading `<` is an
/// upper bound, text after a leading `>` a lower bound, any other text an
/// exact value; text that is not an integer there matches any value.
pub open spec fn coord_of_text(text: Seq<char>) -> Coord {
    if text.len() > 0 && text[0] == '<' {
        match i32_of_text(text.drop_first(), 10) {
            Some(n) => Coord::Below(n),
            None => Coord::Any,
        }
    } else if text.len() > 0 && text[0] == '>' {
        match i32_of_text(text.drop_first(), 10) {
            Some(n) => Coord::Above(n),
            None => Coord::Any,
        }
    } else {
        match i32_of_text(text, 10) {
            Some(n) => Coord::Exact(n),
            None => Coord::Any,
        }
    }
}

/// The line of text that shows a coordinate.
pub open spec fn coord_text(c: Coord) -> Seq<char> {
    match c {
        Coord::Any => Seq::empty(),
        Coord::Exact(n) => decimal_text(n as int),
        Coord::Above(n) => seq!['>'] + decimal_text(n as int),
        Coord::Below(n) => seq!['<'] + decimal_text(n as int),
    }
}


/// The text shown for a coordinate reads back as that coordinate.
pub proof fn lemma_coord_text_round_trip(c: Coord)
    ensures
        coord_of_text(coord_text(c)) == c,
{
    match c {
        Coord::Any => {},
        Coord::Exact(n) => {
            lemma_decimal_round_trip(n);
        },
        Coord::Above(n) => {
            lemma_decimal_round_trip(n);
            assert((seq!['>'] + decimal_text(n as int)).drop_first() =~= decimal_text(n as int));
        },
        Coord::Below(n) => {
            lemma_decimal_round_trip(n);
            assert((seq!['<'] + decimal_text(n as int)).drop_first() =~= decimal_text(n as int));
        },
    }
}

/// The text shown for an identity reads back as that identity, unless it
/// is a name that is empty or reads as an integer.
pub proof fn lemma_ident_text_round_trip(id: IdentView)
    requires
        id is Name ==> id->Name_0.len() > 0 && i32_of_text(id->Name_0, 10) is None,
    ensures
        ident_of_text(ident_text(id)) == id,
{
    if let IdentView::Ref(r) = id {
        lemma_decimal_round_trip(r);
    }
}

} // verus!
