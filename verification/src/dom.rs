//! The document model consumed by style resolution: element data with tag
//! name and attributes, and the node tree.

use vstd::prelude::*;
use vstd::string::StrSliceExecFns;
use crate::strutil::str_eq;

verus! {

/// First-match lookup in an attribute list, scanning from index `i` on.
pub open spec fn attr_from(attrs: Seq<(String, String)>, name: Seq<char>, i: int) -> Option<
    Seq<char>,
>
    decreases attrs.len() - i,
{
    if i < 0 || i >= attrs.len() {
        None
    } else if attrs[i].0@ == name {
        Some(attrs[i].1@)
    } else {
        attr_from(attrs, name, i + 1)
    }
}

/// The index of the first space in `s`, or -1 if `s` has none.
pub open spec fn first_space(s: Seq<char>) -> int
    decreases s.len(),
{
    if s.len() == 0 {
        -1
    } else if s[0] == ' ' {
        0
    } else if first_space(s.drop_first()) < 0 {
        -1
    } else {
        1 + first_space(s.drop_first())
    }
}

proof fn lemma_first_space_at(s: Seq<char>, j: int)
    requires
        0 <= j < s.len(),
        s[j] == ' ',
        forall|k: int| 0 <= k < j ==> s[k] != ' ',
    ensures
        first_space(s) == j,
    decreases s.len(),
{
    if j > 0 {
        lemma_first_space_at(s.drop_first(), j - 1);
    }
}

proof fn lemma_first_space_none(s: Seq<char>)
    requires
        forall|k: int| 0 <= k < s.len() ==> s[k] != ' ',
    ensures
        first_space(s) < 0,
    decreases s.len(),
{
    if s.len() > 0 {
        lemma_first_space_none(s.drop_first());
    }
}

/// The tokens of `s` split on single spaces. Consecutive spaces yield empty
/// tokens and the empty string yields one empty token, as `split` does.
pub open spec fn spec_split(s: Seq<char>) -> Seq<Seq<char>>
    decreases s.len(),
{
    let j = first_space(s);
    if !(0 <= j < s.len()) {
        seq![s]
    } else {
        seq![s.subrange(0, j)] + spec_split(s.subrange(j + 1, s.len() as int))
    }
}

/// Splits a string on single spaces.
pub fn split_spaces(s: &str) -> (r: Vec<String>)
    ensures
        r.deep_view() == spec_split(s@),
    decreases s@.len(),
{
    let n = s.unicode_len();
    let mut i: usize = 0;
    while i < n
        invariant
            n == s@.len(),
            i <= n,
            forall|k: int| 0 <= k < i ==> s@[k] != ' ',
        decreases n - i,
    {
        if s.get_char(i) == ' ' {
            proof {
                lemma_first_space_at(s@, i as int);
            }
            let head = s.substring_char(0, i);
            let tail = s.substring_char(i + 1, n);
            let mut rest = split_spaces(tail);
            let mut r: Vec<String> = Vec::new();
            r.push(head.to_owned());
            r.append(&mut rest);
            proof {
                assert(r.deep_view() =~= spec_split(s@));
            }
            return r;
        }
        i += 1;
    }
    proof {
        lemma_first_space_none(s@);
    }
    let mut r: Vec<String> = Vec::new();
    r.push(s.to_owned());
    proof {
        assert(r.deep_view() =~= spec_split(s@));
    }
    r
}

/// Element data: a tag name and an attribute list. A lookup returns the
/// value of the first pair carrying the given attribute name.
#[derive(Debug)]
pub struct ElementData {
    pub tag_name: String,
    pub attributes: Vec<(String, String)>,
}

impl ElementData {
    /// The value of attribute `name`, if present.
    pub open spec fn spec_attr(self, name: Seq<char>) -> Option<Seq<char>> {
        attr_from(self.attributes@, name, 0)
    }

    /// The class names of this element: the space-split tokens of the
    /// "class" attribute, empty if the attribute is absent.
    pub open spec fn spec_classes(self) -> Seq<Seq<char>> {
        match self.spec_attr("class"@) {
            Some(v) => spec_split(v),
            None => Seq::empty(),
        }
    }

    /// Whether `c` is one of the element's class names.
    pub open spec fn spec_has_class(self, c: Seq<char>) -> bool {
        self.spec_classes().contains(c)
    }

    /// Looks up an attribute by name.
    pub fn attr<'a>(&'a self, name: &str) -> (r: Option<&'a String>)
        ensures
            match r {
                Some(v) => self.spec_attr(name@) == Some(v@),
                None => self.spec_attr(name@) is None,
            },
    {
        let n = self.attributes.len();
        let mut i: usize = 0;
        while i < n
            invariant
                n == self.attributes@.len(),
                i <= n,
                attr_from(self.attributes@, name@, 0) == attr_from(
                    self.attributes@,
                    name@,
                    i as int,
                ),
            decreases n - i,
        {
            if str_eq(self.attributes[i].0.as_str(), name) {
                return Some(&self.attributes[i].1);
            }
            i += 1;
        }
        None
    }

    /// The element's id: the value of the "id" attribute if present.
    pub fn id<'a>(&'a self) -> (r: Option<&'a String>)
        ensures
            match r {
                Some(v) => self.spec_attr("id"@) == Some(v@),
                None => self.spec_attr("id"@) is None,
            },
    {
        self.attr("id")
    }

    /// The element's class names.
    pub fn classes(&self) -> (r: Vec<String>)
        ensures
            r.deep_view() == self.spec_classes(),
    {
        match self.attr("class") {
            Some(classlist) => split_spaces(classlist.as_str()),
            None => {
                let r: Vec<String> = Vec::new();
                proof {
                    assert(r.deep_view() =~= Seq::<Seq<char>>::empty());
                }
                r
            },
        }
    }
}

/// What a document node is: an element or a run of text.
#[derive(Debug)]
pub enum NodeType {
    Element(ElementData),
    Text(String),
}

/// A document node with its ordered children.
#[derive(Debug)]
pub struct Node {
    pub children: Vec<Node>,
    pub node_type: NodeType,
}

/// The number of nodes in the tree rooted at `n`.
pub open spec fn node_count(n: Node) -> nat
    decreases n,
{
    1 + forest_count(n.children@)
}

/// The number of nodes in a sequence of trees.
pub open spec fn forest_count(s: Seq<Node>) -> nat
    decreases s,
{
    if s.len() == 0 {
        0
    } else {
        node_count(s[0]) + forest_count(s.drop_first())
    }
}

} // verus!
