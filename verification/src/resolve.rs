//! The rule resolver: for one element, scans all rules of a stylesheet and
//! folds the declarations of the matching rules into a single property map.
//! For every property the value from the matching rule with the highest
//! specificity wins; on equal specificity the rule later in the stylesheet
//! wins, and within one rule the later declaration wins.

use vstd::prelude::*;
use crate::css::{
    Declaration, Rule, Selector, Specificity, Stylesheet, Value, ValueModel, lex_ge, sp_model,
    spec_lex_ge, spec_lex_gt, spec_lex_max, value_model,
};
use crate::dom::ElementData;
use crate::matching::spec_matches;
use crate::strutil::str_eq;

verus! {

/// First-match lookup of `name` in an association list of properties.
pub open spec fn find_first(s: Seq<(String, Value)>, name: Seq<char>) -> Option<ValueModel>
    decreases s.len(),
{
    if s.len() == 0 {
        None
    } else if s[0].0@ == name {
        Some(value_model(s[0].1))
    } else {
        find_first(s.drop_first(), name)
    }
}

/// How appending an entry changes a first-match lookup: an existing match is
/// kept; otherwise the new entry answers for its own name alone.
proof fn lemma_find_first_push(s: Seq<(String, Value)>, e: (String, Value), name: Seq<char>)
    ensures
        find_first(s.push(e), name) == (if find_first(s, name) is Some {
            find_first(s, name)
        } else if e.0@ == name {
            Some(value_model(e.1))
        } else {
            None
        }),
    decreases s.len(),
{
    if s.len() == 0 {
        assert(s.push(e)[0] == e);
        assert(s.push(e).drop_first() =~= Seq::<(String, Value)>::empty());
        assert(find_first(s.push(e).drop_first(), name) is None);
    } else {
        assert(s.push(e)[0] == s[0]);
        assert(s.push(e).drop_first() =~= s.drop_first().push(e));
        lemma_find_first_push(s.drop_first(), e, name);
    }
}

/// A property map: property names mapped to values, keys unique as far as a
/// lookup can observe (the first entry for a name answers for it).
#[derive(Debug)]
pub struct PropertyMap {
    entries: Vec<(String, Value)>,
}

impl PropertyMap {
    /// The value stored under `name`, if any.
    pub closed spec fn spec_get(self, name: Seq<char>) -> Option<ValueModel> {
        find_first(self.entries@, name)
    }

    /// Creates an empty map.
    pub fn new() -> (r: PropertyMap)
        ensures
            forall|n: Seq<char>| r.spec_get(n) is None,
    {
        PropertyMap { entries: Vec::new() }
    }

    /// Looks up the value stored under `name`.
    pub fn get<'a>(&'a self, name: &str) -> (r: Option<&'a Value>)
        ensures
            match r {
                Some(v) => self.spec_get(name@) == Some(value_model(*v)),
                None => self.spec_get(name@) is None,
            },
    {
        proof {
            assert(self.entries@.skip(0) =~= self.entries@);
        }
        let n = self.entries.len();
        let mut i: usize = 0;
        while i < n
            invariant
                n == self.entries@.len(),
                i <= n,
                find_first(self.entries@, name@) == find_first(
                    self.entries@.skip(i as int),
                    name@,
                ),
            decreases n - i,
        {
            if str_eq(self.entries[i].0.as_str(), name) {
                proof {
                    assert(self.entries@.skip(i as int)[0] == self.entries@[i as int]);
                }
                return Some(&self.entries[i].1);
            }
            proof {
                assert(self.entries@.skip(i as int).drop_first() =~= self.entries@.skip(
                    i as int + 1,
                ));
            }
            i += 1;
        }
        None
    }

    /// Stores `value` under `name`, replacing any previous value.
    pub fn insert(&mut self, name: String, value: Value)
        ensures
            forall|q: Seq<char>|
                #[trigger] final(self).spec_get(q) == (if q == name@ {
                    Some(value_model(value))
                } else {
                    old(self).spec_get(q)
                }),
    {
        let ghost name_view: Seq<char> = name@;
        let ghost val_model: ValueModel = value_model(value);
        let mut out: Vec<(String, Value)> = Vec::new();
        out.push((name, value));
        proof {
            assert(self.entries@.take(0) =~= Seq::<(String, Value)>::empty());
            assert(out@[0].0@ == name_view);
            assert(value_model(out@[0].1) == val_model);
            assert(out@.drop_first() =~= Seq::<(String, Value)>::empty());
            assert(find_first(out@, name_view) == Some(val_model));
            assert forall|q: Seq<char>| q != name_view implies #[trigger] find_first(out@, q)
                == find_first(self.entries@.take(0), q) by {
                assert(find_first(out@.drop_first(), q) is None);
                assert(find_first(self.entries@.take(0), q) is None);
            }
        }
        let n = self.entries.len();
        let mut i: usize = 0;
        while i < n
            invariant
                n == self.entries@.len(),
                i <= n,
                out@.len() >= 1,
                out@[0].0@ == name_view,
                find_first(out@, name_view) == Some(val_model),
                forall|q: Seq<char>|
                    q != name_view ==> #[trigger] find_first(out@, q) == find_first(
                        self.entries@.take(i as int),
                        q,
                    ),
            decreases n - i,
        {
            let ghost out_before = out@;
            let ghost cur = self.entries@[i as int];
            if !str_eq(self.entries[i].0.as_str(), out[0].0.as_str()) {
                let key = self.entries[i].0.clone();
                let val = self.entries[i].1.clone();
                out.push((key, val));
            }
            proof {
                assert(self.entries@.take(i as int + 1) =~= self.entries@.take(i as int).push(
                    cur,
                ));
                assert forall|q: Seq<char>| q != name_view implies #[trigger] find_first(out@, q)
                    == find_first(self.entries@.take(i as int + 1), q) by {
                    lemma_find_first_push(self.entries@.take(i as int), cur, q);
                    if cur.0@ != name_view {
                        lemma_find_first_push(out_before, (out@.last().0, out@.last().1), q);
                        assert(out@ =~= out_before.push(out@.last()));
                    }
                }
                if self.entries@[i as int].0@ != name_view {
                    lemma_find_first_push(out_before, out@.last(), name_view);
                    assert(out@ =~= out_before.push(out@.last()));
                }
            }
            i += 1;
        }
        proof {
            assert(self.entries@.take(n as int) =~= self.entries@);
        }
        self.entries = out;
    }
}

/// The highest specificity among the rule's selectors, from index `i` on,
/// that match `elem`; `None` when none of them matches.
pub open spec fn spec_rule_match(elem: ElementData, sels: Seq<Selector>, i: int) -> Option<
    (int, int, int),
>
    decreases sels.len() - i,
{
    if i < 0 || i >= sels.len() {
        None
    } else {
        let rest = spec_rule_match(elem, sels, i + 1);
        if spec_matches(elem, sels[i]) {
            match rest {
                None => Some(sels[i].spec_specificity()),
                Some(b) => Some(spec_lex_max(sels[i].spec_specificity(), b)),
            }
        } else {
            rest
        }
    }
}

/// Tests a rule against an element: a rule matches when at least one of its
/// selectors does, and it is ranked by the highest specificity among its
/// matching selectors.
pub fn match_rule(elem: &ElementData, rule: &Rule) -> (r: Option<Specificity>)
    ensures
        match r {
            Some(sp) => spec_rule_match(*elem, rule.selectors@, 0) == Some(sp_model(sp)),
            None => spec_rule_match(*elem, rule.selectors@, 0) is None,
        },
{
    let mut i = rule.selectors.len();
    let mut best: Option<Specificity> = None;
    while i > 0
        invariant
            i <= rule.selectors@.len(),
            match best {
                Some(sp) => spec_rule_match(*elem, rule.selectors@, i as int) == Some(
                    sp_model(sp),
                ),
                None => spec_rule_match(*elem, rule.selectors@, i as int) is None,
            },
        decreases i,
    {
        i -= 1;
        if crate::matching::matches(elem, &rule.selectors[i]) {
            let sp = rule.selectors[i].specificity();
            best = match best {
                Some(b) => if lex_ge(sp, b) {
                    Some(sp)
                } else {
                    Some(b)
                },
                None => Some(sp),
            };
        }
    }
    best
}

/// The winner for `prop` after folding the first `j` declarations of a rule
/// of specificity `s` over the previous winner `prev`. A declaration
/// replaces the winner exactly when its rule's specificity is at least as
/// high as the winner's.
pub open spec fn winner_decls(
    prev: Option<((int, int, int), ValueModel)>,
    s: (int, int, int),
    decls: Seq<Declaration>,
    j: int,
    prop: Seq<char>,
) -> Option<((int, int, int), ValueModel)>
    decreases j,
{
    if j <= 0 {
        prev
    } else {
        let w = winner_decls(prev, s, decls, j - 1, prop);
        if 0 <= j - 1 < decls.len() && decls[j - 1].name@ == prop {
            match w {
                None => Some((s, value_model(decls[j - 1].value))),
                Some(p) => if spec_lex_ge(s, p.0) {
                    Some((s, value_model(decls[j - 1].value)))
                } else {
                    w
                },
            }
        } else {
            w
        }
    }
}

/// The winner for `prop` after the first `n` rules of the stylesheet.
pub open spec fn winner_upto(
    elem: ElementData,
    rules: Seq<Rule>,
    n: int,
    prop: Seq<char>,
) -> Option<((int, int, int), ValueModel)>
    decreases n,
{
    if n <= 0 || n > rules.len() {
        None
    } else {
        let prev = winner_upto(elem, rules, n - 1, prop);
        match spec_rule_match(elem, rules[n - 1].selectors@, 0) {
            None => prev,
            Some(s) => winner_decls(
                prev,
                s,
                rules[n - 1].declarations@,
                rules[n - 1].declarations@.len() as int,
                prop,
            ),
        }
    }
}

/// The value resolved for property `prop` on `elem` under `sheet`: the value
/// from the matching rule with the highest specificity, ties broken by the
/// later position in the stylesheet and, within one rule, by the later
/// declaration; `None` when no matching rule declares `prop`.
pub open spec fn spec_resolved(elem: ElementData, sheet: Stylesheet, prop: Seq<char>) -> Option<
    ValueModel,
> {
    match winner_upto(elem, sheet.rules@, sheet.rules@.len() as int, prop) {
        None => None,
        Some(p) => Some(p.1),
    }
}

/// A candidate entry while resolving: a property name, the value currently
/// winning for it, and the specificity that value arrived with.
struct Candidate {
    name: String,
    value: Value,
    spec: Specificity,
}

/// First-match lookup in the candidate list.
spec fn cand_find(s: Seq<Candidate>, name: Seq<char>) -> Option<((int, int, int), ValueModel)>
    decreases s.len(),
{
    if s.len() == 0 {
        None
    } else if s[0].name@ == name {
        Some((sp_model(s[0].spec), value_model(s[0].value)))
    } else {
        cand_find(s.drop_first(), name)
    }
}

proof fn lemma_cand_find_push(s: Seq<Candidate>, e: Candidate, name: Seq<char>)
    ensures
        cand_find(s.push(e), name) == (if cand_find(s, name) is Some {
            cand_find(s, name)
        } else if e.name@ == name {
            Some((sp_model(e.spec), value_model(e.value)))
        } else {
            None
        }),
    decreases s.len(),
{
    if s.len() == 0 {
        assert(s.push(e)[0] == e);
        assert(s.push(e).drop_first() =~= Seq::<Candidate>::empty());
        assert(cand_find(s.push(e).drop_first(), name) is None);
    } else {
        assert(s.push(e)[0] == s[0]);
        assert(s.push(e).drop_first() =~= s.drop_first().push(e));
        lemma_cand_find_push(s.drop_first(), e, name);
    }
}

/// The specificity currently winning for `name`, if any candidate holds it.
fn cand_get_spec(cands: &Vec<Candidate>, name: &String) -> (r: Option<Specificity>)
    ensures
        match r {
            Some(sp) => match cand_find(cands@, name@) {
                Some(p) => p.0 == sp_model(sp),
                None => false,
            },
            None => cand_find(cands@, name@) is None,
        },
{
    proof {
        assert(cands@.skip(0) =~= cands@);
    }
    let n = cands.len();
    let mut i: usize = 0;
    while i < n
        invariant
            n == cands@.len(),
            i <= n,
            cand_find(cands@, name@) == cand_find(cands@.skip(i as int), name@),
        decreases n - i,
    {
        if str_eq(cands[i].name.as_str(), name.as_str()) {
            proof {
                assert(cands@.skip(i as int)[0] == cands@[i as int]);
            }
            return Some(cands[i].spec);
        }
        proof {
            assert(cands@.skip(i as int).drop_first() =~= cands@.skip(i as int + 1));
        }
        i += 1;
    }
    None
}

/// Makes `value` with specificity `sp` the candidate for `name`, replacing
/// any previous candidate for that name.
fn cand_upsert(cands: &mut Vec<Candidate>, name: &String, value: &Value, sp: Specificity)
    ensures
        forall|q: Seq<char>|
            #[trigger] cand_find(final(cands)@, q) == (if q == name@ {
                Some((sp_model(sp), value_model(*value)))
            } else {
                cand_find(old(cands)@, q)
            }),
{
    let ghost name_view: Seq<char> = name@;
    let mut out: Vec<Candidate> = Vec::new();
    out.push(Candidate { name: name.clone(), value: value.clone(), spec: sp });
    proof {
        assert(old(cands)@.take(0) =~= Seq::<Candidate>::empty());
        assert(out@[0].name@ == name_view);
        assert(out@.drop_first() =~= Seq::<Candidate>::empty());
        assert(cand_find(out@, name_view) == Some((sp_model(sp), value_model(*value))));
        assert forall|q: Seq<char>| q != name_view implies #[trigger] cand_find(out@, q)
            == cand_find(old(cands)@.take(0), q) by {
            assert(cand_find(out@.drop_first(), q) is None);
            assert(cand_find(old(cands)@.take(0), q) is None);
        }
    }
    let n = cands.len();
    let mut i: usize = 0;
    while i < n
        invariant
            n == cands@.len(),
            cands@ == old(cands)@,
            i <= n,
            out@.len() >= 1,
            out@[0].name@ == name_view,
            cand_find(out@, name_view) == Some((sp_model(sp), value_model(*value))),
            forall|q: Seq<char>|
                q != name_view ==> #[trigger] cand_find(out@, q) == cand_find(
                    cands@.take(i as int),
                    q,
                ),
        decreases n - i,
    {
        let ghost out_before = out@;
        let ghost cur = cands@[i as int];
        if !str_eq(cands[i].name.as_str(), out[0].name.as_str()) {
            let e = Candidate {
                name: cands[i].name.clone(),
                value: cands[i].value.clone(),
                spec: cands[i].spec,
            };
            out.push(e);
        }
        proof {
            assert(cands@.take(i as int + 1) =~= cands@.take(i as int).push(cur));
            assert forall|q: Seq<char>| q != name_view implies #[trigger] cand_find(out@, q)
                == cand_find(cands@.take(i as int + 1), q) by {
                lemma_cand_find_push(cands@.take(i as int), cur, q);
                if cur.name@ != name_view {
                    lemma_cand_find_push(out_before, out@.last(), q);
                    assert(out@ =~= out_before.push(out@.last()));
                }
            }
            if cands@[i as int].name@ != name_view {
                lemma_cand_find_push(out_before, out@.last(), name_view);
                assert(out@ =~= out_before.push(out@.last()));
            }
        }
        i += 1;
    }
    proof {
        assert(cands@.take(n as int) =~= cands@);
    }
    *cands = out;
}

/// Projects a winner to the value it carries.
pub open spec fn winner_value(w: Option<((int, int, int), ValueModel)>) -> Option<ValueModel> {
    match w {
        None => None,
        Some(p) => Some(p.1),
    }
}

/// Resolves the full property map for `elem`: every property declared by a
/// matching rule is present, carrying the value from the matching rule with
/// the highest specificity, ties broken by stylesheet order; nothing else is
/// present.
pub fn specified_values(elem: &ElementData, stylesheet: &Stylesheet) -> (r: PropertyMap)
    ensures
        forall|p: Seq<char>| #[trigger] r.spec_get(p) == spec_resolved(*elem, *stylesheet, p),
{
    let mut cands: Vec<Candidate> = Vec::new();
    let nr = stylesheet.rules.len();
    let mut i: usize = 0;
    while i < nr
        invariant
            nr == stylesheet.rules@.len(),
            i <= nr,
            forall|p: Seq<char>|
                #[trigger] cand_find(cands@, p) == winner_upto(
                    *elem,
                    stylesheet.rules@,
                    i as int,
                    p,
                ),
        decreases nr - i,
    {
        let rule = &stylesheet.rules[i];
        match match_rule(elem, rule) {
            Some(sp) => {
                let nd = rule.declarations.len();
                let mut j: usize = 0;
                while j < nd
                    invariant
                        nd == rule.declarations@.len(),
                        j <= nd,
                        i < nr,
                        nr == stylesheet.rules@.len(),
                        *rule == stylesheet.rules@[i as int],
                        spec_rule_match(*elem, rule.selectors@, 0) == Some(sp_model(sp)),
                        forall|p: Seq<char>|
                            #[trigger] cand_find(cands@, p) == winner_decls(
                                winner_upto(*elem, stylesheet.rules@, i as int, p),
                                sp_model(sp),
                                rule.declarations@,
                                j as int,
                                p,
                            ),
                    decreases nd - j,
                {
                    let decl = &rule.declarations[j];
                    let do_insert: bool = match cand_get_spec(&cands, &decl.name) {
                        Some(cur) => lex_ge(sp, cur),
                        None => true,
                    };
                    if do_insert {
                        cand_upsert(&mut cands, &decl.name, &decl.value, sp);
                    }
                    j += 1;
                }
            },
            None => {},
        }
        i += 1;
    }
    let nc = cands.len();
    let mut r = PropertyMap::new();
    let mut k = nc;
    while k > 0
        invariant
            k <= nc,
            nc == cands@.len(),
            forall|p: Seq<char>|
                #[trigger] r.spec_get(p) == winner_value(cand_find(cands@.skip(k as int), p)),
        decreases k,
    {
        k -= 1;
        let name = cands[k].name.clone();
        let value = cands[k].value.clone();
        r.insert(name, value);
        proof {
            assert(cands@.skip(k as int)[0] == cands@[k as int]);
            assert(cands@.skip(k as int).drop_first() =~= cands@.skip(k as int + 1));
        }
    }
    proof {
        assert(cands@.skip(0) =~= cands@);
    }
    r
}

/// The value of the last declaration for `prop` among the first `j`
/// declarations, if any declares it.
pub open spec fn last_decl(decls: Seq<Declaration>, j: int, prop: Seq<char>) -> Option<ValueModel>
    decreases j,
{
    if j <= 0 || j > decls.len() {
        None
    } else if decls[j - 1].name@ == prop {
        Some(value_model(decls[j - 1].value))
    } else {
        last_decl(decls, j - 1, prop)
    }
}

/// Folding a rule's declarations is the same as taking the rule's last
/// declaration for the property and letting it replace the previous winner
/// exactly when the rule's specificity is at least as high.
pub proof fn lemma_winner_decls_characterization(
    prev: Option<((int, int, int), ValueModel)>,
    s: (int, int, int),
    decls: Seq<Declaration>,
    j: int,
    prop: Seq<char>,
)
    requires
        0 <= j <= decls.len(),
    ensures
        winner_decls(prev, s, decls, j, prop) == (match last_decl(decls, j, prop) {
            None => prev,
            Some(v) => match prev {
                None => Some((s, v)),
                Some(p) => if spec_lex_ge(s, p.0) {
                    Some((s, v))
                } else {
                    prev
                },
            },
        }),
    decreases j,
{
    if j > 0 {
        lemma_winner_decls_characterization(prev, s, decls, j - 1, prop);
    }
}

/// Whether rule `i` of the sheet contributes a value for `prop` to `elem`:
/// at least one of its selectors matches and it declares the property.
pub open spec fn contributes(elem: ElementData, rules: Seq<Rule>, i: int, prop: Seq<char>) -> bool {
    &&& 0 <= i < rules.len()
    &&& spec_rule_match(elem, rules[i].selectors@, 0) is Some
    &&& last_decl(rules[i].declarations@, rules[i].declarations@.len() as int, prop) is Some
}

/// The specificity rule `i` ranks with toward `elem`; meaningful only where
/// the rule matches.
pub open spec fn rule_rank(elem: ElementData, rules: Seq<Rule>, i: int) -> (int, int, int) {
    match spec_rule_match(elem, rules[i].selectors@, 0) {
        Some(s) => s,
        None => (-1, -1, -1),
    }
}

/// The value rule `i` declares for `prop`, its later declarations winning.
pub open spec fn rule_value(rules: Seq<Rule>, i: int, prop: Seq<char>) -> Option<ValueModel> {
    last_decl(rules[i].declarations@, rules[i].declarations@.len() as int, prop)
}

/// A property no rule contributes to stays absent, and a property some rule
/// contributes to is present.
pub proof fn lemma_absent_iff_untouched(
    elem: ElementData,
    rules: Seq<Rule>,
    n: int,
    prop: Seq<char>,
)
    requires
        0 <= n <= rules.len(),
    ensures
        (winner_upto(elem, rules, n, prop) is None) == (forall|j: int|
            0 <= j < n ==> !contributes(elem, rules, j, prop)),
    decreases n,
{
    if n > 0 {
        lemma_absent_iff_untouched(elem, rules, n - 1, prop);
        let prev = winner_upto(elem, rules, n - 1, prop);
        match spec_rule_match(elem, rules[n - 1].selectors@, 0) {
            None => {},
            Some(s) => {
                lemma_winner_decls_characterization(
                    prev,
                    s,
                    rules[n - 1].declarations@,
                    rules[n - 1].declarations@.len() as int,
                    prop,
                );
            },
        }
        if winner_upto(elem, rules, n, prop) is None {
            assert(prev is None);
            assert forall|j: int| 0 <= j < n implies !contributes(elem, rules, j, prop) by {
                if j < n - 1 {
                    assert(!contributes(elem, rules, j, prop));
                } else {
                    assert(!contributes(elem, rules, n - 1, prop));
                }
            }
        } else {
            if forall|j: int| 0 <= j < n ==> !contributes(elem, rules, j, prop) {
                assert forall|j: int| 0 <= j < n - 1 implies !contributes(
                    elem,
                    rules,
                    j,
                    prop,
                ) by {
                    assert(!contributes(elem, rules, j, prop));
                }
                assert(prev is None);
                assert(!contributes(elem, rules, n - 1, prop));
                assert(false);
            }
        }
    }
}

/// The winner among the first `n` rules never outranks a bound that no
/// contributing rule among them outranks.
proof fn lemma_winner_bound(
    elem: ElementData,
    rules: Seq<Rule>,
    n: int,
    prop: Seq<char>,
    s: (int, int, int),
)
    requires
        0 <= n <= rules.len(),
        forall|j: int|
            0 <= j < n && contributes(elem, rules, j, prop) ==> !spec_lex_gt(
                #[trigger] rule_rank(elem, rules, j),
                s,
            ),
    ensures
        match winner_upto(elem, rules, n, prop) {
            None => true,
            Some(p) => !spec_lex_gt(p.0, s),
        },
    decreases n,
{
    if n > 0 {
        lemma_winner_bound(elem, rules, n - 1, prop, s);
        let prev = winner_upto(elem, rules, n - 1, prop);
        match spec_rule_match(elem, rules[n - 1].selectors@, 0) {
            None => {},
            Some(sp) => {
                lemma_winner_decls_characterization(
                    prev,
                    sp,
                    rules[n - 1].declarations@,
                    rules[n - 1].declarations@.len() as int,
                    prop,
                );
                assert(rule_rank(elem, rules, n - 1) == sp);
                if last_decl(
                    rules[n - 1].declarations@,
                    rules[n - 1].declarations@.len() as int,
                    prop,
                ) is Some {
                    assert(contributes(elem, rules, n - 1, prop));
                }
            },
        }
    }
}

proof fn lemma_winner_upto_argmax(
    elem: ElementData,
    rules: Seq<Rule>,
    n: int,
    prop: Seq<char>,
    i: int,
)
    requires
        0 <= n <= rules.len(),
        i < n,
        contributes(elem, rules, i, prop),
        forall|j: int|
            0 <= j < i && contributes(elem, rules, j, prop) ==> !spec_lex_gt(
                #[trigger] rule_rank(elem, rules, j),
                rule_rank(elem, rules, i),
            ),
        forall|j: int|
            i < j < n && contributes(elem, rules, j, prop) ==> !spec_lex_ge(
                #[trigger] rule_rank(elem, rules, j),
                rule_rank(elem, rules, i),
            ),
    ensures
        winner_upto(elem, rules, n, prop) == Some(
            (rule_rank(elem, rules, i), rule_value(rules, i, prop)->0),
        ),
    decreases n,
{
    let prev = winner_upto(elem, rules, n - 1, prop);
    match spec_rule_match(elem, rules[n - 1].selectors@, 0) {
        None => {},
        Some(sp) => {
            lemma_winner_decls_characterization(
                prev,
                sp,
                rules[n - 1].declarations@,
                rules[n - 1].declarations@.len() as int,
                prop,
            );
            assert(rule_rank(elem, rules, n - 1) == sp);
            if last_decl(
                rules[n - 1].declarations@,
                rules[n - 1].declarations@.len() as int,
                prop,
            ) is Some {
                assert(contributes(elem, rules, n - 1, prop));
            }
        },
    }
    if i == n - 1 {
        lemma_winner_bound(elem, rules, n - 1, prop, rule_rank(elem, rules, i));
    } else {
        lemma_winner_upto_argmax(elem, rules, n - 1, prop, i);
    }
}

/// For each property touched by any matching rule, the resolved value is the
/// one from the contributing rule `i` with the highest specificity, ties
/// broken by the later position in the stylesheet: no earlier contributor
/// outranks rule `i`, and no later contributor reaches its rank.
pub proof fn lemma_resolved_from_winning_rule(
    elem: ElementData,
    sheet: Stylesheet,
    prop: Seq<char>,
    i: int,
)
    requires
        contributes(elem, sheet.rules@, i, prop),
        forall|j: int|
            0 <= j < i && contributes(elem, sheet.rules@, j, prop) ==> !spec_lex_gt(
                #[trigger] rule_rank(elem, sheet.rules@, j),
                rule_rank(elem, sheet.rules@, i),
            ),
        forall|j: int|
            i < j < sheet.rules@.len() && contributes(elem, sheet.rules@, j, prop)
                ==> !spec_lex_ge(
                #[trigger] rule_rank(elem, sheet.rules@, j),
                rule_rank(elem, sheet.rules@, i),
            ),
    ensures
        spec_resolved(elem, sheet, prop) == rule_value(sheet.rules@, i, prop),
{
    lemma_winner_upto_argmax(elem, sheet.rules@, sheet.rules@.len() as int, prop, i);
}

/// A property that no matching rule declares is absent from the resolved
/// map, and one that some matching rule declares is present.
pub proof fn lemma_resolved_absent_iff_untouched(
    elem: ElementData,
    sheet: Stylesheet,
    prop: Seq<char>,
)
    ensures
        (spec_resolved(elem, sheet, prop) is None) == (forall|j: int|
            0 <= j < sheet.rules@.len() ==> !contributes(elem, sheet.rules@, j, prop)),
{
    lemma_absent_iff_untouched(elem, sheet.rules@, sheet.rules@.len() as int, prop);
}

/// Resolver tie-break: in a stylesheet of two rules with equal specificity
/// toward the element, both declaring `prop`, the later rule's value wins.
pub proof fn lemma_tie_break(
    elem: ElementData,
    sheet: Stylesheet,
    prop: Seq<char>,
    s: (int, int, int),
    v2: ValueModel,
)
    requires
        sheet.rules@.len() == 2,
        spec_rule_match(elem, sheet.rules@[0].selectors@, 0) == Some(s),
        spec_rule_match(elem, sheet.rules@[1].selectors@, 0) == Some(s),
        last_decl(sheet.rules@[0].declarations@, sheet.rules@[0].declarations@.len() as int, prop)
            is Some,
        last_decl(sheet.rules@[1].declarations@, sheet.rules@[1].declarations@.len() as int, prop)
            == Some(v2),
    ensures
        spec_resolved(elem, sheet, prop) == Some(v2),
{
    let rules = sheet.rules@;
    let w0 = winner_upto(elem, rules, 0, prop);
    assert(w0 is None);
    let w1 = winner_upto(elem, rules, 1, prop);
    lemma_winner_decls_characterization(
        w0,
        s,
        rules[0].declarations@,
        rules[0].declarations@.len() as int,
        prop,
    );
    let w2 = winner_upto(elem, rules, 2, prop);
    lemma_winner_decls_characterization(
        w1,
        s,
        rules[1].declarations@,
        rules[1].declarations@.len() as int,
        prop,
    );
    assert(w2 == Some((s, v2)));
}

} // verus!
