//! The selector matcher: decides whether one selector matches one element.
//! Matching is purely structural; it reads only the tag name, the id, and
//! the class attribute.

use vstd::prelude::*;
use crate::css::{Selector, SimpleSelector};
use crate::dom::ElementData;
use crate::strutil::str_eq;

verus! {

/// Whether the selector's tag-name constraint accepts the element.
pub open spec fn spec_tag_ok(elem: ElementData, sel: SimpleSelector) -> bool {
    match sel.tag_name {
        Some(t) => elem.tag_name@ == t@,
        None => true,
    }
}

/// Whether the selector's id constraint accepts the element. An element
/// without an "id" attribute fails every id-constrained selector.
pub open spec fn spec_id_ok(elem: ElementData, sel: SimpleSelector) -> bool {
    match sel.id {
        Some(id) => elem.spec_attr("id"@) == Some(id@),
        None => true,
    }
}

/// Whether every class the selector requires is one of the element's.
pub open spec fn spec_class_ok(elem: ElementData, sel: SimpleSelector) -> bool {
    forall|k: int| 0 <= k < sel.class@.len() ==> elem.spec_has_class(#[trigger] sel.class@[k]@)
}

/// Whether a simple selector matches an element: the tag, id, and class
/// filters must all pass.
pub open spec fn spec_matches_simple(elem: ElementData, sel: SimpleSelector) -> bool {
    spec_tag_ok(elem, sel) && spec_id_ok(elem, sel) && spec_class_ok(elem, sel)
}

/// Whether a selector matches an element.
pub open spec fn spec_matches(elem: ElementData, selector: Selector) -> bool {
    match selector {
        Selector::Simple(s) => spec_matches_simple(elem, s),
    }
}

/// Whether `v` holds a string whose characters equal `c`'s.
fn contains_str(v: &Vec<String>, c: &String) -> (r: bool)
    ensures
        r == v.deep_view().contains(c@),
{
    let n = v.len();
    let mut i: usize = 0;
    while i < n
        invariant
            n == v@.len(),
            i <= n,
            forall|j: int| 0 <= j < i ==> v.deep_view()[j] != c@,
        decreases n - i,
    {
        if str_eq(v[i].as_str(), c.as_str()) {
            proof {
                assert(v.deep_view()[i as int] == c@);
            }
            return true;
        }
        i += 1;
    }
    false
}

/// Tests a simple selector against an element.
pub fn matches_simple_selector(elem: &ElementData, selector: &SimpleSelector) -> (r: bool)
    ensures
        r == spec_matches_simple(*elem, *selector),
{
    if let Some(name) = &selector.tag_name {
        if !str_eq(elem.tag_name.as_str(), name.as_str()) {
            return false;
        }
    }
    if let Some(id) = &selector.id {
        match elem.id() {
            Some(elem_id) => {
                if !str_eq(elem_id.as_str(), id.as_str()) {
                    return false;
                }
            },
            None => {
                return false;
            },
        }
    }
    let elem_classes = elem.classes();
    let nc = selector.class.len();
    let mut k: usize = 0;
    while k < nc
        invariant
            nc == selector.class@.len(),
            k <= nc,
            elem_classes.deep_view() == elem.spec_classes(),
            spec_tag_ok(*elem, *selector),
            spec_id_ok(*elem, *selector),
            forall|j: int| 0 <= j < k ==> elem.spec_has_class(#[trigger] selector.class@[j]@),
        decreases nc - k,
    {
        if !contains_str(&elem_classes, &selector.class[k]) {
            proof {
                assert(!elem.spec_has_class(selector.class@[k as int]@));
            }
            return false;
        }
        k += 1;
    }
    true
}

/// Tests a selector against an element, dispatching on the selector kind.
pub fn matches(elem: &ElementData, selector: &Selector) -> (r: bool)
    ensures
        r == spec_matches(*elem, *selector),
{
    match selector {
        Selector::Simple(simple_selector) => matches_simple_selector(elem, simple_selector),
    }
}

/// A selector with no tag, no id, and no classes matches every element.
pub proof fn lemma_empty_selector_matches(elem: ElementData, sel: SimpleSelector)
    requires
        sel.tag_name is None,
        sel.id is None,
        sel.class@.len() == 0,
    ensures
        spec_matches(elem, Selector::Simple(sel)),
{
}

/// A selector whose tag name differs from the element's never matches,
/// whatever its id and classes say.
pub proof fn lemma_tag_mismatch(elem: ElementData, sel: SimpleSelector)
    requires
        match sel.tag_name {
            Some(t) => t@ != elem.tag_name@,
            None => false,
        },
    ensures
        !spec_matches(elem, Selector::Simple(sel)),
{
}

/// A selector that requires an id never matches an element that has no
/// "id" attribute.
pub proof fn lemma_id_required(elem: ElementData, sel: SimpleSelector)
    requires
        sel.id is Some,
        elem.spec_attr("id"@) is None,
    ensures
        !spec_matches(elem, Selector::Simple(sel)),
{
}

/// If the element's class set is a superset of the classes the selector
/// requires, the class filter passes.
pub proof fn lemma_class_superset(elem: ElementData, sel: SimpleSelector)
    requires
        sel.class@.map_values(|c: String| c@).to_set().subset_of(
            elem.spec_classes().to_set(),
        ),
    ensures
        spec_class_ok(elem, sel),
{
    assert forall|k: int| 0 <= k < sel.class@.len() implies elem.spec_has_class(
        #[trigger] sel.class@[k]@,
    ) by {
        let m = sel.class@.map_values(|c: String| c@);
        assert(m[k] == sel.class@[k]@);
        assert(m.contains(sel.class@[k]@));
        assert(elem.spec_classes().to_set().contains(sel.class@[k]@));
    }
}

} // verus!
