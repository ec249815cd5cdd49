//! A small parser for simple selectors: a cursor over the selector text that
//! reads an optional tag name, `#id`, `.class` names, and `*`, stopping at
//! the first character that belongs to none of them.

use vstd::prelude::*;
use vstd::string::StrSliceExecFns;
use crate::css::SimpleSelector;

verus! {

/// Whether `c` may appear in an identifier: an ASCII letter, a digit, `-`,
/// or `_`.
pub open spec fn spec_ident_char(c: char) -> bool {
    ('a' <= c && c <= 'z') || ('A' <= c && c <= 'Z') || ('0' <= c && c <= '9') || c == '-' || c
        == '_'
}

/// Tests whether `c` may appear in an identifier.
pub fn ident_char(c: char) -> (r: bool)
    ensures
        r == spec_ident_char(c),
{
    ('a' <= c && c <= 'z') || ('A' <= c && c <= 'Z') || ('0' <= c && c <= '9') || c == '-' || c
        == '_'
}

/// The index right after the identifier that starts at `i`: the first index
/// at or past `i` holding no identifier character, or the end of the text.
pub open spec fn spec_ident_end(s: Seq<char>, i: int) -> int
    decreases s.len() - i,
{
    if i < 0 || i >= s.len() || !spec_ident_char(s[i]) {
        i
    } else {
        spec_ident_end(s, i + 1)
    }
}

proof fn lemma_ident_end_bounds(s: Seq<char>, i: int)
    requires
        0 <= i <= s.len(),
    ensures
        i <= spec_ident_end(s, i) <= s.len(),
    decreases s.len() - i,
{
    if i < s.len() && spec_ident_char(s[i]) {
        lemma_ident_end_bounds(s, i + 1);
    }
}

/// The mathematical model of a simple selector: every string replaced by
/// its view.
pub struct SelectorModel {
    pub tag_name: Option<Seq<char>>,
    pub id: Option<Seq<char>>,
    pub class: Seq<Seq<char>>,
}

/// The model of an empty selector, where parsing starts.
pub open spec fn empty_selector_model() -> SelectorModel {
    SelectorModel { tag_name: None, id: None, class: Seq::empty() }
}

/// The model a `SimpleSelector` value carries.
pub open spec fn selector_model(s: SimpleSelector) -> SelectorModel {
    SelectorModel {
        tag_name: match s.tag_name {
            Some(t) => Some(t@),
            None => None,
        },
        id: match s.id {
            Some(i) => Some(i@),
            None => None,
        },
        class: s.class.deep_view(),
    }
}

/// What parsing a simple selector yields, reading `s` from position `i`
/// with the fields gathered so far in `acc`: the finished selector and the
/// position of the first character that does not belong to it.
pub open spec fn spec_parse_selector(s: Seq<char>, i: int, acc: SelectorModel) -> (
    SelectorModel,
    int,
)
    decreases s.len() - i,
        via spec_parse_selector_decreases
{
    if i < 0 || i >= s.len() {
        (acc, i)
    } else if s[i] == '#' {
        let j = spec_ident_end(s, i + 1);
        spec_parse_selector(
            s,
            j,
            SelectorModel { id: Some(s.subrange(i + 1, j)), ..acc },
        )
    } else if s[i] == '.' {
        let j = spec_ident_end(s, i + 1);
        spec_parse_selector(
            s,
            j,
            SelectorModel { class: acc.class.push(s.subrange(i + 1, j)), ..acc },
        )
    } else if s[i] == '*' {
        spec_parse_selector(s, i + 1, acc)
    } else if spec_ident_char(s[i]) {
        let j = spec_ident_end(s, i);
        spec_parse_selector(
            s,
            j,
            SelectorModel { tag_name: Some(s.subrange(i, j)), ..acc },
        )
    } else {
        (acc, i)
    }
}

#[via_fn]
proof fn spec_parse_selector_decreases(s: Seq<char>, i: int, acc: SelectorModel) {
    if 0 <= i < s.len() {
        lemma_ident_end_bounds(s, i + 1);
        if spec_ident_char(s[i]) {
            lemma_ident_end_bounds(s, i);
        }
    }
}

/// A cursor over selector text, counting positions in characters.
pub struct Parser {
    pub input: String,
    pub pos: usize,
}

impl Parser {
    /// The cursor never stands past the end of its input.
    pub open spec fn wf(self) -> bool {
        self.pos <= self.input@.len()
    }

    /// Creates a parser at the start of `input`.
    pub fn new(input: String) -> (r: Parser)
        ensures
            r.wf(),
            r.input@ == input@,
            r.pos == 0,
    {
        Parser { input, pos: 0 }
    }

    /// Whether the whole input has been consumed.
    pub fn eof(&self) -> (r: bool)
        requires
            self.wf(),
        ensures
            r == (self.pos == self.input@.len()),
    {
        self.pos >= self.input.as_str().unicode_len()
    }

    /// The character under the cursor, without consuming it.
    pub fn next_char(&self) -> (c: char)
        requires
            self.wf(),
            self.pos < self.input@.len(),
        ensures
            c == self.input@[self.pos as int],
    {
        self.input.as_str().get_char(self.pos)
    }

    /// Consumes and returns the character under the cursor.
    pub fn consume_char(&mut self) -> (c: char)
        requires
            old(self).wf(),
            old(self).pos < old(self).input@.len(),
        ensures
            final(self).wf(),
            final(self).input == old(self).input,
            final(self).pos == old(self).pos + 1,
            c == old(self).input@[old(self).pos as int],
    {
        let n = self.input.as_str().unicode_len();
        let c = self.input.as_str().get_char(self.pos);
        self.pos = self.pos + 1;
        proof {
            assert(self.pos <= n);
        }
        c
    }

    /// Consumes the identifier under the cursor and returns it; consumes
    /// nothing when no identifier character is there.
    pub fn parse_identifier(&mut self) -> (r: String)
        requires
            old(self).wf(),
        ensures
            final(self).wf(),
            final(self).input == old(self).input,
            final(self).pos as int == spec_ident_end(old(self).input@, old(self).pos as int),
            r@ == old(self).input@.subrange(old(self).pos as int, final(self).pos as int),
    {
        let n = self.input.as_str().unicode_len();
        let start = self.pos;
        let mut j = self.pos;
        let mut done = false;
        while !done && j < n
            invariant
                self == old(self),
                n == self.input@.len(),
                start <= j <= n,
                spec_ident_end(self.input@, start as int) == (if done {
                    j as int
                } else {
                    spec_ident_end(self.input@, j as int)
                }),
            decreases n - j, (if done {
                0int
            } else {
                1int
            }),
        {
            if ident_char(self.input.as_str().get_char(j)) {
                j = j + 1;
            } else {
                done = true;
            }
        }
        let r = self.input.as_str().substring_char(start, j).to_owned();
        self.pos = j;
        r
    }

    /// Parses one simple selector at the cursor: an optional tag name,
    /// `#id` and `.class` constraints, and the universal selector `*`, in
    /// any order, stopping at the first character that fits none of them.
    pub fn parse_simple_selector(&mut self) -> (r: SimpleSelector)
        requires
            old(self).wf(),
        ensures
            final(self).wf(),
            final(self).input == old(self).input,
            (selector_model(r), final(self).pos as int) == spec_parse_selector(
                old(self).input@,
                old(self).pos as int,
                empty_selector_model(),
            ),
    {
        let mut selector = SimpleSelector { tag_name: None, id: None, class: Vec::new() };
        proof {
            assert(selector.class.deep_view() =~= Seq::<Seq<char>>::empty());
        }
        let n = self.input.as_str().unicode_len();
        let mut done = false;
        while !done && self.pos < n
            invariant
                self.wf(),
                self.input == old(self).input,
                n == self.input@.len(),
                spec_parse_selector(
                    old(self).input@,
                    old(self).pos as int,
                    empty_selector_model(),
                ) == (if done {
                    (selector_model(selector), self.pos as int)
                } else {
                    spec_parse_selector(
                        self.input@,
                        self.pos as int,
                        selector_model(selector),
                    )
                }),
            decreases n - self.pos, (if done {
                0int
            } else {
                1int
            }),
        {
            let ghost p = self.pos as int;
            let ghost before = selector_model(selector);
            let c = self.next_char();
            if c == '#' {
                self.consume_char();
                let id = self.parse_identifier();
                selector.id = Some(id);
            } else if c == '.' {
                self.consume_char();
                let cls = self.parse_identifier();
                let ghost cls_view = cls@;
                selector.class.push(cls);
                proof {
                    assert(selector.class.deep_view() =~= before.class.push(cls_view));
                }
            } else if c == '*' {
                self.consume_char();
            } else if ident_char(c) {
                let tag = self.parse_identifier();
                selector.tag_name = Some(tag);
            } else {
                done = true;
            }
            proof {
                lemma_ident_end_bounds(self.input@, p + 1);
            }
        }
        selector
    }
}

} // verus!
