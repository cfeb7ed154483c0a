//! Reconciling a policy record with the schemes the host offers.
//!
//! Validation looks at names only. Each list of the record becomes the sorted
//! set of those of its entries that may stay: a scheme stays if the host has
//! registered it, a resource stays if it lies in a scheme that stays
//! sandboxed. A root outside every sandboxed scheme makes the record invalid.

use vstd::prelude::*;
use vstd::string::*;
use crate::contain_config::{names, ContainConfig, Policy};
use crate::error::ContainError;
use crate::text::{
    chars_eq, chars_start_with, lemma_lex_lt_irreflexive, lemma_lex_lt_total,
    lemma_lex_lt_transitive, lex_less, lex_lt, to_chars,
};

verus! {

/// The texts held by a list of character vectors.
pub open spec fn keys(list: Seq<Vec<char>>) -> Seq<Seq<char>> {
    Seq::new(list.len(), |i: int| list[i]@)
}

/// Each entry comes strictly before every later one: the list is sorted and
/// holds nothing twice.
pub open spec fn strictly_sorted(list: Seq<Seq<char>>) -> bool {
    forall|i: int, j: int|
        0 <= i < j < list.len() ==> lex_lt(#[trigger] list[i], #[trigger] list[j])
}

/// The resource `uri` lies in `scheme`: its name starts with the scheme's
/// name and a colon.
pub open spec fn in_scheme(uri: Seq<char>, scheme: Seq<char>) -> bool {
    (scheme + seq![':']).is_prefix_of(uri)
}

/// The resource `uri` lies in one of `schemes`.
pub open spec fn in_some_scheme(uri: Seq<char>, schemes: Seq<Seq<char>>) -> bool {
    exists|i: int| 0 <= i < schemes.len() && in_scheme(uri, #[trigger] schemes[i])
}

/// What an entry of a list must meet to stay, as a mathematical value.
pub enum Rule {
    /// The entry is one of these names.
    OneOf(Seq<Seq<char>>),
    /// The entry lies in one of these schemes.
    InSchemes(Seq<Seq<char>>),
}

impl Rule {
    /// Whether `x` meets the rule.
    pub open spec fn keeps(self, x: Seq<char>) -> bool {
        match self {
            Rule::OneOf(list) => list.contains(x),
            Rule::InSchemes(schemes) => in_some_scheme(x, schemes),
        }
    }
}

/// What an entry of a list must meet to stay.
pub enum Criterion<'a> {
    /// The entry is one of these names.
    OneOf(&'a Vec<Vec<char>>),
    /// The entry lies in one of these schemes.
    InSchemes(&'a Vec<Vec<char>>),
}

impl<'a> View for Criterion<'a> {
    type V = Rule;

    open spec fn view(&self) -> Rule {
        match self {
            Criterion::OneOf(list) => Rule::OneOf(keys(list@)),
            Criterion::InSchemes(list) => Rule::InSchemes(keys(list@)),
        }
    }
}

impl<'a> Criterion<'a> {
    /// Whether `key` meets the criterion.
    pub fn admits(&self, key: &[char]) -> (r: bool)
        ensures
            r == self@.keeps(key@),
    {
        match self {
            Criterion::OneOf(list) => contains_key(list, key),
            Criterion::InSchemes(list) => lies_in_some_scheme(key, list),
        }
    }
}

/// `out` is the selection from `input` by `rule`: the sorted set of the
/// entries of `input` that meet the rule. There is exactly one such list
/// (see `lemma_selection_unique`).
pub open spec fn is_selection(out: Seq<Seq<char>>, input: Seq<Seq<char>>, rule: Rule) -> bool {
    &&& strictly_sorted(out)
    &&& forall|x: Seq<char>| #[trigger] out.contains(x) <==> input.contains(x) && rule.keeps(x)
}

/// The record is to be refused: it has a root, and the root lies in none of
/// its sandboxed schemes that the host has registered. A record without a
/// root is never refused.
pub open spec fn root_rejected(input: Policy, host: Seq<Seq<char>>) -> bool {
    input.root matches Some(root) && !(exists|i: int|
        0 <= i < input.sandbox_schemes.len() && host.contains(
            #[trigger] input.sandbox_schemes[i],
        ) && in_scheme(root, input.sandbox_schemes[i]))
}

/// `out` is the validated form of `input` on a host that has registered the
/// schemes `host`.
pub open spec fn validated(out: Policy, input: Policy, host: Seq<Seq<char>>) -> bool {
    &&& out.root == input.root
    &&& is_selection(out.pass_schemes, input.pass_schemes, Rule::OneOf(host))
    &&& is_selection(out.sandbox_schemes, input.sandbox_schemes, Rule::OneOf(host))
    &&& is_selection(out.files, input.files, Rule::InSchemes(out.sandbox_schemes))
    &&& is_selection(out.dirs, input.dirs, Rule::InSchemes(out.sandbox_schemes))
    &&& is_selection(out.rofiles, input.rofiles, Rule::InSchemes(out.sandbox_schemes))
    &&& is_selection(out.rodirs, input.rodirs, Rule::InSchemes(out.sandbox_schemes))
}

/// A strictly sorted list holds nothing twice.
pub proof fn lemma_strictly_sorted_no_duplicates(list: Seq<Seq<char>>)
    requires
        strictly_sorted(list),
    ensures
        list.no_duplicates(),
{
    assert forall|i: int, j: int|
        0 <= i < list.len() && 0 <= j < list.len() && i != j implies list[i] != list[j] by {
        lemma_lex_lt_irreflexive(list[i]);
        if i < j {
            assert(lex_lt(list[i], list[j]));
        } else {
            assert(lex_lt(list[j], list[i]));
        }
    }
}

/// Two strictly sorted lists with the same entries are the same list.
pub proof fn lemma_sorted_same_entries_equal(a: Seq<Seq<char>>, b: Seq<Seq<char>>)
    requires
        strictly_sorted(a),
        strictly_sorted(b),
        forall|x: Seq<char>| a.contains(x) <==> b.contains(x),
    ensures
        a == b,
    decreases a.len(),
{
    if a.len() == 0 {
        if b.len() > 0 {
            assert(b.contains(b[0]));
            assert(a.contains(b[0]));
        }
        assert(a =~= b);
    } else {
        assert(a.contains(a[0]));
        assert(b.contains(a[0]));
        let j = choose|j: int| 0 <= j < b.len() && b[j] == a[0];
        assert(b.contains(b[0]));
        assert(a.contains(b[0]));
        let i = choose|i: int| 0 <= i < a.len() && a[i] == b[0];
        if j > 0 {
            assert(lex_lt(b[0], b[j]));
            if i > 0 {
                assert(lex_lt(a[0], a[i]));
                lemma_lex_lt_transitive(a[0], b[0], a[0]);
            }
            lemma_lex_lt_irreflexive(a[0]);
        }
        assert(a[0] == b[0]);
        let ta = a.drop_first();
        let tb = b.drop_first();
        assert forall|x: Seq<char>| ta.contains(x) <==> tb.contains(x) by {
            lemma_lex_lt_irreflexive(a[0]);
            if ta.contains(x) {
                let k = choose|k: int| 0 <= k < ta.len() && ta[k] == x;
                assert(a[k + 1] == x);
                assert(lex_lt(a[0], a[k + 1]));
                assert(a.contains(x));
                let m = choose|m: int| 0 <= m < b.len() && b[m] == x;
                assert(m > 0);
                assert(tb[m - 1] == x);
            }
            if tb.contains(x) {
                let k = choose|k: int| 0 <= k < tb.len() && tb[k] == x;
                assert(b[k + 1] == x);
                assert(lex_lt(b[0], b[k + 1]));
                assert(b.contains(x));
                let m = choose|m: int| 0 <= m < a.len() && a[m] == x;
                assert(m > 0);
                assert(ta[m - 1] == x);
            }
        }
        assert forall|p: int, q: int| 0 <= p < q < ta.len() implies lex_lt(
            #[trigger] ta[p],
            #[trigger] ta[q],
        ) by {
            assert(lex_lt(a[p + 1], a[q + 1]));
        }
        assert forall|p: int, q: int| 0 <= p < q < tb.len() implies lex_lt(
            #[trigger] tb[p],
            #[trigger] tb[q],
        ) by {
            assert(lex_lt(b[p + 1], b[q + 1]));
        }
        lemma_sorted_same_entries_equal(ta, tb);
        assert(a =~= seq![a[0]] + ta);
        assert(b =~= seq![b[0]] + tb);
    }
}

/// The selection from a list is determined by the list and the criterion.
pub proof fn lemma_selection_unique(
    a: Seq<Seq<char>>,
    b: Seq<Seq<char>>,
    input: Seq<Seq<char>>,
    rule: Rule,
)
    requires
        is_selection(a, input, rule),
        is_selection(b, input, rule),
    ensures
        a == b,
{
    assert forall|x: Seq<char>| a.contains(x) <==> b.contains(x) by {
        assert(a.contains(x) <==> input.contains(x) && rule.keeps(x));
        assert(b.contains(x) <==> input.contains(x) && rule.keeps(x));
    }
    lemma_sorted_same_entries_equal(a, b);
}

/// A record has at most one validated form on a given host.
pub proof fn lemma_validated_unique(a: Policy, b: Policy, input: Policy, host: Seq<Seq<char>>)
    requires
        validated(a, input, host),
        validated(b, input, host),
    ensures
        a == b,
{
    lemma_selection_unique(a.pass_schemes, b.pass_schemes, input.pass_schemes, Rule::OneOf(host));
    lemma_selection_unique(
        a.sandbox_schemes,
        b.sandbox_schemes,
        input.sandbox_schemes,
        Rule::OneOf(host),
    );
    let sandbox = a.sandbox_schemes;
    lemma_selection_unique(a.files, b.files, input.files, Rule::InSchemes(sandbox));
    lemma_selection_unique(a.dirs, b.dirs, input.dirs, Rule::InSchemes(sandbox));
    lemma_selection_unique(a.rofiles, b.rofiles, input.rofiles, Rule::InSchemes(sandbox));
    lemma_selection_unique(a.rodirs, b.rodirs, input.rodirs, Rule::InSchemes(sandbox));
}

/// Every entry of a selection meets the rule it was selected by, and the
/// selection is its own selection by that rule.
pub proof fn lemma_selection_meets(out: Seq<Seq<char>>, input: Seq<Seq<char>>, rule: Rule)
    requires
        is_selection(out, input, rule),
    ensures
        forall|i: int| 0 <= i < out.len() ==> rule.keeps(#[trigger] out[i]),
        is_selection(out, out, rule),
{
    assert forall|i: int| 0 <= i < out.len() implies rule.keeps(#[trigger] out[i]) by {
        assert(out.contains(out[i]));
    }
}

/// In a validated record, every entry of `files`, `dirs`, `rofiles` and
/// `rodirs` lies in one of the record's sandboxed schemes.
pub proof fn lemma_validated_resources_are_sandboxed(
    valid: Policy,
    input: Policy,
    host: Seq<Seq<char>>,
)
    requires
        validated(valid, input, host),
    ensures
        forall|i: int|
            0 <= i < valid.files.len() ==> in_some_scheme(
                #[trigger] valid.files[i],
                valid.sandbox_schemes,
            ),
        forall|i: int|
            0 <= i < valid.dirs.len() ==> in_some_scheme(
                #[trigger] valid.dirs[i],
                valid.sandbox_schemes,
            ),
        forall|i: int|
            0 <= i < valid.rofiles.len() ==> in_some_scheme(
                #[trigger] valid.rofiles[i],
                valid.sandbox_schemes,
            ),
        forall|i: int|
            0 <= i < valid.rodirs.len() ==> in_some_scheme(
                #[trigger] valid.rodirs[i],
                valid.sandbox_schemes,
            ),
{
    let sandbox = valid.sandbox_schemes;
    lemma_selection_meets(valid.files, input.files, Rule::InSchemes(sandbox));
    lemma_selection_meets(valid.dirs, input.dirs, Rule::InSchemes(sandbox));
    lemma_selection_meets(valid.rofiles, input.rofiles, Rule::InSchemes(sandbox));
    lemma_selection_meets(valid.rodirs, input.rodirs, Rule::InSchemes(sandbox));
}

/// In a validated record, `pass_schemes` and `sandbox_schemes` hold nothing
/// twice, and every scheme they hold is registered with the host.
pub proof fn lemma_validated_schemes_are_registered_once(
    valid: Policy,
    input: Policy,
    host: Seq<Seq<char>>,
)
    requires
        validated(valid, input, host),
    ensures
        valid.pass_schemes.no_duplicates(),
        valid.sandbox_schemes.no_duplicates(),
        forall|i: int|
            0 <= i < valid.pass_schemes.len() ==> host.contains(#[trigger] valid.pass_schemes[i]),
        forall|i: int|
            0 <= i < valid.sandbox_schemes.len() ==> host.contains(
                #[trigger] valid.sandbox_schemes[i],
            ),
{
    lemma_strictly_sorted_no_duplicates(valid.pass_schemes);
    lemma_strictly_sorted_no_duplicates(valid.sandbox_schemes);
    lemma_selection_meets(valid.pass_schemes, input.pass_schemes, Rule::OneOf(host));
    lemma_selection_meets(valid.sandbox_schemes, input.sandbox_schemes, Rule::OneOf(host));
}

/// No scheme of the two lists are the same.
pub open spec fn disjoint(a: Seq<Seq<char>>, b: Seq<Seq<char>>) -> bool {
    forall|i: int, j: int|
        0 <= i < a.len() && 0 <= j < b.len() ==> #[trigger] a[i] != #[trigger] b[j]
}

/// Validation adds nothing to a list: where no scheme of the record is both
/// passed and sandboxed, none is in the validated record.
pub proof fn lemma_validated_schemes_stay_disjoint(
    valid: Policy,
    input: Policy,
    host: Seq<Seq<char>>,
)
    requires
        validated(valid, input, host),
        disjoint(input.pass_schemes, input.sandbox_schemes),
    ensures
        disjoint(valid.pass_schemes, valid.sandbox_schemes),
{
    assert forall|i: int, j: int|
        0 <= i < valid.pass_schemes.len() && 0 <= j < valid.sandbox_schemes.len() implies
        #[trigger] valid.pass_schemes[i] != #[trigger] valid.sandbox_schemes[j] by {
        let p = valid.pass_schemes[i];
        let s = valid.sandbox_schemes[j];
        assert(valid.pass_schemes.contains(p));
        assert(valid.sandbox_schemes.contains(s));
        assert(input.pass_schemes.contains(p));
        assert(input.sandbox_schemes.contains(s));
        let a = choose|a: int| 0 <= a < input.pass_schemes.len() && input.pass_schemes[a] == p;
        let b = choose|b: int|
            0 <= b < input.sandbox_schemes.len() && input.sandbox_schemes[b] == s;
        assert(input.pass_schemes[a] != input.sandbox_schemes[b]);
    }
}

/// The root of a record that validation accepts lies in one of the
/// sandboxed schemes of the validated record.
pub proof fn lemma_validated_root_is_sandboxed(valid: Policy, input: Policy, host: Seq<Seq<char>>)
    requires
        !root_rejected(input, host),
        validated(valid, input, host),
    ensures
        valid.root matches Some(root) ==> in_some_scheme(root, valid.sandbox_schemes),
{
    if let Some(root) = valid.root {
        let k = choose|k: int|
            0 <= k < input.sandbox_schemes.len() && host.contains(
                #[trigger] input.sandbox_schemes[k],
            ) && in_scheme(root, input.sandbox_schemes[k]);
        let s = input.sandbox_schemes[k];
        assert(input.sandbox_schemes.contains(s));
        assert(valid.sandbox_schemes.contains(s));
        let sandbox = valid.sandbox_schemes;
        let i = choose|i: int| 0 <= i < sandbox.len() && sandbox[i] == s;
        assert(in_scheme(root, sandbox[i]));
    }
}

/// Validating a validated record changes nothing: if `valid` is the
/// validated form of a record that was accepted, then `valid` is accepted
/// too, and it is its own validated form, so that whatever a second
/// validation returns, `again`, is `valid`.
pub proof fn lemma_validation_is_idempotent(
    valid: Policy,
    input: Policy,
    host: Seq<Seq<char>>,
    again: Policy,
)
    requires
        !root_rejected(input, host),
        validated(valid, input, host),
        validated(again, valid, host),
    ensures
        !root_rejected(valid, host),
        validated(valid, valid, host),
        again == valid,
{
    let sandbox = valid.sandbox_schemes;
    lemma_selection_meets(valid.pass_schemes, input.pass_schemes, Rule::OneOf(host));
    lemma_selection_meets(valid.sandbox_schemes, input.sandbox_schemes, Rule::OneOf(host));
    lemma_selection_meets(valid.files, input.files, Rule::InSchemes(sandbox));
    lemma_selection_meets(valid.dirs, input.dirs, Rule::InSchemes(sandbox));
    lemma_selection_meets(valid.rofiles, input.rofiles, Rule::InSchemes(sandbox));
    lemma_selection_meets(valid.rodirs, input.rodirs, Rule::InSchemes(sandbox));
    if let Some(root) = valid.root {
        let k = choose|k: int|
            0 <= k < input.sandbox_schemes.len() && host.contains(
                #[trigger] input.sandbox_schemes[k],
            ) && in_scheme(root, input.sandbox_schemes[k]);
        let s = input.sandbox_schemes[k];
        assert(input.sandbox_schemes.contains(s));
        assert(sandbox.contains(s));
        let i = choose|i: int| 0 <= i < sandbox.len() && sandbox[i] == s;
        assert(host.contains(sandbox[i]) && in_scheme(root, sandbox[i]));
    }
    lemma_validated_unique(again, valid, valid, host);
}

/// The character vectors of a list of strings.
pub fn to_keys(list: &Vec<String>) -> (r: Vec<Vec<char>>)
    ensures
        keys(r@) == names(list@),
{
    let mut r: Vec<Vec<char>> = Vec::new();
    let mut i: usize = 0;
    while i < list.len()
        invariant
            i <= list.len(),
            r.len() == i,
            forall|j: int| 0 <= j < i ==> r[j]@ == list[j]@,
        decreases list.len() - i,
    {
        r.push(to_chars(list[i].as_str()));
        i += 1;
    }
    assert(keys(r@) =~= names(list@));
    r
}

/// Whether `key` is one of `list`.
pub fn contains_key(list: &Vec<Vec<char>>, key: &[char]) -> (r: bool)
    ensures
        r == keys(list@).contains(key@),
{
    let mut i: usize = 0;
    while i < list.len()
        invariant
            i <= list.len(),
            forall|j: int| 0 <= j < i ==> keys(list@)[j] != key@,
        decreases list.len() - i,
    {
        if chars_eq(list[i].as_slice(), key) {
            assert(keys(list@)[i as int] == key@);
            return true;
        }
        i += 1;
    }
    false
}

/// Whether the resource `uri` lies in `scheme`.
pub fn lies_in_scheme(uri: &[char], scheme: &[char]) -> (r: bool)
    ensures
        r == in_scheme(uri@, scheme@),
{
    let ghost full = scheme@ + seq![':'];
    if uri.len() <= scheme.len() {
        return false;
    }
    if !chars_start_with(uri, scheme) {
        proof {
            if full.is_prefix_of(uri@) {
                assert(scheme@ =~= full.subrange(0, scheme@.len() as int));
                assert(scheme@ =~= uri@.subrange(0, scheme@.len() as int));
            }
        }
        return false;
    }
    let r = uri[scheme.len()] == ':';
    proof {
        let n = scheme@.len() as int;
        if r {
            assert(full =~= uri@.subrange(0, n + 1));
        } else if full.is_prefix_of(uri@) {
            assert(uri@.subrange(0, full.len() as int)[n] == full[n]);
        }
    }
    r
}

/// Whether the resource `uri` lies in one of `schemes`.
pub fn lies_in_some_scheme(uri: &[char], schemes: &Vec<Vec<char>>) -> (r: bool)
    ensures
        r == in_some_scheme(uri@, keys(schemes@)),
{
    let mut i: usize = 0;
    while i < schemes.len()
        invariant
            i <= schemes.len(),
            forall|j: int| 0 <= j < i ==> !in_scheme(uri@, #[trigger] keys(schemes@)[j]),
        decreases schemes.len() - i,
    {
        if lies_in_scheme(uri, schemes[i].as_slice()) {
            assert(in_scheme(uri@, keys(schemes@)[i as int]));
            return true;
        }
        i += 1;
    }
    false
}

/// Put `item` into the sorted set `out`, whose texts `out_keys` mirrors,
/// unless it is there already.
fn insert_sorted(out: &mut Vec<String>, out_keys: &mut Vec<Vec<char>>, item: String, key: Vec<char>)
    requires
        keys(old(out_keys)@) == names(old(out)@),
        strictly_sorted(names(old(out)@)),
        key@ == item@,
    ensures
        keys(final(out_keys)@) == names(final(out)@),
        strictly_sorted(names(final(out)@)),
        forall|x: Seq<char>| #[trigger]
            names(final(out)@).contains(x) <==> names(old(out)@).contains(x) || x == item@,
{
    let ghost before = names(out@);
    assert(out_keys@.len() == out@.len()) by {
        assert(keys(out_keys@).len() == names(out@).len());
    }
    let mut i: usize = 0;
    while i < out_keys.len() && lex_less(out_keys[i].as_slice(), key.as_slice())
        invariant
            i <= out_keys.len(),
            keys(out_keys@) == before,
            forall|j: int| 0 <= j < i ==> lex_lt(#[trigger] before[j], key@),
        decreases out_keys.len() - i,
    {
        assert(keys(out_keys@)[i as int] == out_keys@[i as int]@);
        i += 1;
    }
    let ghost at = i as int;
    if i < out_keys.len() {
        assert(keys(out_keys@)[at] == out_keys@[at]@);
        if chars_eq(out_keys[i].as_slice(), key.as_slice()) {
            assert(before[at] == item@);
            assert(before.contains(item@));
            return ;
        }
    }
    out.insert(i, item);
    out_keys.insert(i, key);
    proof {
        let after = names(out@);
        assert(after =~= before.insert(at, item@));
        assert(keys(out_keys@) =~= before.insert(at, item@));
        if at < before.len() {
            lemma_lex_lt_total(before[at], item@);
            assert(lex_lt(item@, before[at]));
        }
        assert forall|p: int, q: int| 0 <= p < q < after.len() implies lex_lt(
            #[trigger] after[p],
            #[trigger] after[q],
        ) by {
            if q < at {
                assert(lex_lt(before[p], before[q]));
            } else if q == at {
                assert(lex_lt(before[p], item@));
            } else if p == at {
                if q - 1 > at {
                    assert(lex_lt(before[at], before[q - 1]));
                    lemma_lex_lt_transitive(item@, before[at], before[q - 1]);
                }
            } else if p < at {
                assert(lex_lt(before[p], before[q - 1]));
            } else {
                assert(lex_lt(before[p - 1], before[q - 1]));
            }
        }
        assert forall|x: Seq<char>| #[trigger]
            after.contains(x) <==> before.contains(x) || x == item@ by {
            if after.contains(x) {
                let k = choose|k: int| 0 <= k < after.len() && after[k] == x;
                if k < at {
                    assert(before[k] == x);
                } else if k > at {
                    assert(before[k - 1] == x);
                }
            }
            if before.contains(x) {
                let k = choose|k: int| 0 <= k < before.len() && before[k] == x;
                if k < at {
                    assert(after[k] == x);
                } else {
                    assert(after[k + 1] == x);
                }
            }
            if x == item@ {
                assert(after[at] == x);
            }
        }
    }
}

/// The sorted set of the entries of `list` that meet `criterion`, with the
/// texts of its entries.
pub fn select(list: Vec<String>, criterion: &Criterion) -> (out: (Vec<String>, Vec<Vec<char>>))
    ensures
        keys(out.1@) == names(out.0@),
        is_selection(names(out.0@), names(list@), criterion@),
{
    let ghost input = names(list@);
    let ghost rule = criterion@;
    let mut rest = list;
    let mut out: Vec<String> = Vec::new();
    let mut out_keys: Vec<Vec<char>> = Vec::new();
    assert(keys(out_keys@) =~= names(out@));
    while rest.len() > 0
        invariant
            rest.len() <= input.len(),
            forall|j: int| 0 <= j < rest.len() ==> rest[j]@ == input[j],
            rule == criterion@,
            keys(out_keys@) == names(out@),
            strictly_sorted(names(out@)),
            forall|x: Seq<char>| #[trigger]
                names(out@).contains(x) <==> (exists|j: int|
                    rest.len() <= j < input.len() && input[j] == x) && rule.keeps(x),
        decreases rest.len(),
    {
        let ghost n = rest.len() as int;
        let ghost prior = names(out@);
        let item = rest.pop().unwrap();
        assert(item@ == input[n - 1]);
        let key = to_chars(item.as_str());
        if criterion.admits(key.as_slice()) {
            insert_sorted(&mut out, &mut out_keys, item, key);
        }
        assert forall|x: Seq<char>| #[trigger]
            names(out@).contains(x) <==> (exists|j: int|
                rest.len() <= j < input.len() && input[j] == x) && rule.keeps(x) by {
            assert(prior.contains(x) <==> (exists|j: int| n <= j < input.len() && input[j] == x)
                && rule.keeps(x));
            if exists|j: int| n - 1 <= j < input.len() && input[j] == x {
                let j = choose|j: int| n - 1 <= j < input.len() && input[j] == x;
                if j != n - 1 {
                    assert(n <= j < input.len() && input[j] == x);
                }
            }
        }
    }
    assert forall|x: Seq<char>| #[trigger]
        names(out@).contains(x) <==> input.contains(x) && rule.keeps(x) by {
        if input.contains(x) {
            let j = choose|j: int| 0 <= j < input.len() && input[j] == x;
            assert(rest.len() <= j < input.len() && input[j] == x);
        }
    }
    (out, out_keys)
}

/// Validate the policy record `config` against `schemes`, the names of the
/// schemes that the host has registered.
///
/// Schemes that the host does not know and resources outside every sandboxed
/// scheme are dropped without complaint, and each list comes back sorted and
/// free of duplicates. The record is refused, with `ConfigError`, exactly if
/// it has a root that lies in none of the sandboxed schemes that remain.
pub fn validate_config(config: ContainConfig, schemes: &Vec<String>) -> (r: Result<
    ContainConfig,
    ContainError,
>)
    ensures
        match r {
            Ok(valid) => !root_rejected(config@, names(schemes@)) && validated(
                valid@,
                config@,
                names(schemes@),
            ),
            Err(e) => root_rejected(config@, names(schemes@)) && e is ConfigError,
        },
{
    let ghost input = config@;
    let ghost host = names(schemes@);
    let ContainConfig { root, pass_schemes, sandbox_schemes, files, dirs, rofiles, rodirs } =
        config;
    let host_keys = to_keys(schemes);
    let known = Criterion::OneOf(&host_keys);
    let (pass_schemes, _) = select(pass_schemes, &known);
    let (sandbox_schemes, sandbox_keys) = select(sandbox_schemes, &known);
    let ghost sandbox = names(sandbox_schemes@);
    let rejected = match &root {
        Some(r) => {
            let root_key = to_chars(r.as_str());
            !lies_in_some_scheme(root_key.as_slice(), &sandbox_keys)
        },
        None => false,
    };
    proof {
        if let Some(r) = input.root {
            if in_some_scheme(r, sandbox) {
                let i = choose|i: int|
                    0 <= i < sandbox.len() && in_scheme(r, #[trigger] sandbox[i]);
                assert(sandbox.contains(sandbox[i]));
                let s = sandbox[i];
                let k = choose|k: int|
                    0 <= k < input.sandbox_schemes.len() && input.sandbox_schemes[k] == s;
                assert(host.contains(input.sandbox_schemes[k]));
            }
            if !root_rejected(input, host) {
                let k = choose|k: int|
                    0 <= k < input.sandbox_schemes.len() && host.contains(
                        #[trigger] input.sandbox_schemes[k],
                    ) && in_scheme(r, input.sandbox_schemes[k]);
                let s = input.sandbox_schemes[k];
                assert(input.sandbox_schemes.contains(s));
                assert(sandbox.contains(s));
                let i = choose|i: int| 0 <= i < sandbox.len() && sandbox[i] == s;
                assert(in_scheme(r, sandbox[i]));
            }
        }
    }
    if rejected {
        return Err(ContainError::ConfigError);
    }
    let sandboxed = Criterion::InSchemes(&sandbox_keys);
    let (files, _) = select(files, &sandboxed);
    let (dirs, _) = select(dirs, &sandboxed);
    let (rofiles, _) = select(rofiles, &sandboxed);
    let (rodirs, _) = select(rodirs, &sandboxed);
    Ok(ContainConfig { root, pass_schemes, sandbox_schemes, files, dirs, rofiles, rodirs })
}

} // verus!
