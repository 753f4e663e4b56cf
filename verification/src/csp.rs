//! The policy model: directives in the order they were first added, each with
//! its set of source values, also kept in the order of insertion.

use vstd::prelude::*;

use crate::text::{
    chars_of, is_ws, lemma_split_on_concat, lemma_split_on_items, lemma_words_items, lemma_split_on_no_sep, lemma_words_concat,
    lemma_words_no_ws, push_char, split_chars, split_on, string_from_chars, words, words_of,
};
use vstd::string::StringExecFns;

verus! {

/// The number of directives the editor offers.
pub const DIRECTIVE_COUNT: usize = 19;

/// The directives the editor offers, by position.
pub open spec fn directive_at(i: int) -> Seq<char> {
    if i == 0 {
        "default-src"@
    } else if i == 1 {
        "script-src"@
    } else if i == 2 {
        "style-src"@
    } else if i == 3 {
        "img-src"@
    } else if i == 4 {
        "connect-src"@
    } else if i == 5 {
        "font-src"@
    } else if i == 6 {
        "frame-src"@
    } else if i == 7 {
        "media-src"@
    } else if i == 8 {
        "object-src"@
    } else if i == 9 {
        "manifest-src"@
    } else if i == 10 {
        "base-uri"@
    } else if i == 11 {
        "form-action"@
    } else if i == 12 {
        "frame-ancestors"@
    } else if i == 13 {
        "report-uri"@
    } else if i == 14 {
        "report-to"@
    } else if i == 15 {
        "worker-src"@
    } else if i == 16 {
        "child-src"@
    } else if i == 17 {
        "navigate-to"@
    } else {
        "prefetch-src"@
    }
}

/// The directives of Content Security Policy that the editor offers, in the
/// order it offers them.
pub open spec fn csp_directive_names() -> Seq<Seq<char>> {
    Seq::empty()
        .push("default-src"@)
        .push("script-src"@)
        .push("style-src"@)
        .push("img-src"@)
        .push("connect-src"@)
        .push("font-src"@)
        .push("frame-src"@)
        .push("media-src"@)
        .push("object-src"@)
        .push("manifest-src"@)
        .push("base-uri"@)
        .push("form-action"@)
        .push("frame-ancestors"@)
        .push("report-uri"@)
        .push("report-to"@)
        .push("worker-src"@)
        .push("child-src"@)
        .push("navigate-to"@)
        .push("prefetch-src"@)
}

/// The offered directives are exactly the CSP directives of the list above,
/// at the same positions.
pub proof fn lemma_offered_directives(i: int)
    requires
        0 <= i < DIRECTIVE_COUNT,
    ensures
        csp_directive_names().len() == DIRECTIVE_COUNT,
        directive_at(i) == csp_directive_names()[i],
{
        if i == 0 {
            assert(directive_at(i) == "default-src"@);
        } else if i == 1 {
            assert(directive_at(i) == "script-src"@);
        } else if i == 2 {
            assert(directive_at(i) == "style-src"@);
        } else if i == 3 {
            assert(directive_at(i) == "img-src"@);
        } else if i == 4 {
            assert(directive_at(i) == "connect-src"@);
        } else if i == 5 {
            assert(directive_at(i) == "font-src"@);
        } else if i == 6 {
            assert(directive_at(i) == "frame-src"@);
        } else if i == 7 {
            assert(directive_at(i) == "media-src"@);
        } else if i == 8 {
            assert(directive_at(i) == "object-src"@);
        } else if i == 9 {
            assert(directive_at(i) == "manifest-src"@);
        } else if i == 10 {
            assert(directive_at(i) == "base-uri"@);
        } else if i == 11 {
            assert(directive_at(i) == "form-action"@);
        } else if i == 12 {
            assert(directive_at(i) == "frame-ancestors"@);
        } else if i == 13 {
            assert(directive_at(i) == "report-uri"@);
        } else if i == 14 {
            assert(directive_at(i) == "report-to"@);
        } else if i == 15 {
            assert(directive_at(i) == "worker-src"@);
        } else if i == 16 {
            assert(directive_at(i) == "child-src"@);
        } else if i == 17 {
            assert(directive_at(i) == "navigate-to"@);
        } else if i == 18 {
            assert(directive_at(i) == "prefetch-src"@);
        }
}

/// The name of the offered directive at position `i`.
pub fn directive_name(i: usize) -> (r: &'static str)
    requires
        i < DIRECTIVE_COUNT,
    ensures
        r@ == directive_at(i as int),
        r@ == csp_directive_names()[i as int],
{
    proof {
        lemma_offered_directives(i as int);
    }
    match i {
        0 => "default-src",
        1 => "script-src",
        2 => "style-src",
        3 => "img-src",
        4 => "connect-src",
        5 => "font-src",
        6 => "frame-src",
        7 => "media-src",
        8 => "object-src",
        9 => "manifest-src",
        10 => "base-uri",
        11 => "form-action",
        12 => "frame-ancestors",
        13 => "report-uri",
        14 => "report-to",
        15 => "worker-src",
        16 => "child-src",
        17 => "navigate-to",
        _ => "prefetch-src",
    }
}

/// The abstract content of a policy: each directive's name with its values.
pub type PolicyModel = Seq<(Seq<char>, Seq<Seq<char>>)>;

/// The directive names of a policy model, in order.
pub open spec fn directive_names(m: PolicyModel) -> Seq<Seq<char>> {
    m.map_values(|e: (Seq<char>, Seq<Seq<char>>)| e.0)
}

/// A policy model is well formed when no directive occurs twice and no
/// directive holds the same value twice.
pub open spec fn policy_wf(m: PolicyModel) -> bool {
    &&& directive_names(m).no_duplicates()
    &&& forall|i: int| 0 <= i < m.len() ==> (#[trigger] m[i]).1.no_duplicates()
}

/// Every directive without values has a non-empty name, so that each
/// directive shows in the CSP string.
pub open spec fn bare_directives_named(m: PolicyModel) -> bool {
    forall|i: int| 0 <= i < m.len() && (#[trigger] m[i]).1.len() == 0 ==> m[i].0.len() > 0
}

/// Whether the model has a directive named `d`.
pub open spec fn has_directive(m: PolicyModel, d: Seq<char>) -> bool {
    directive_names(m).contains(d)
}

/// The position of directive `d` in the model (meaningful when it is present).
pub open spec fn directive_pos(m: PolicyModel, d: Seq<char>) -> int {
    directive_names(m).index_of(d)
}

/// The values of directive `d`, or `None` when the model has no such directive.
pub open spec fn lookup(m: PolicyModel, d: Seq<char>) -> Option<Seq<Seq<char>>> {
    if has_directive(m, d) {
        Some(m[directive_pos(m, d)].1)
    } else {
        None
    }
}

/// A value set with `v` added (unchanged when `v` is already there).
pub open spec fn with_value(vals: Seq<Seq<char>>, v: Seq<char>) -> Seq<Seq<char>> {
    if vals.contains(v) {
        vals
    } else {
        vals.push(v)
    }
}

/// A value set with `v` taken out (unchanged when `v` is not there).
pub open spec fn without_value(vals: Seq<Seq<char>>, v: Seq<char>) -> Seq<Seq<char>> {
    if vals.contains(v) {
        vals.remove(vals.index_of(v))
    } else {
        vals
    }
}

/// The model after adding value `v` to directive `d`: a directive that is not
/// there yet is appended at the end.
pub open spec fn add_value_model(m: PolicyModel, d: Seq<char>, v: Seq<char>) -> PolicyModel {
    if has_directive(m, d) {
        let i = directive_pos(m, d);
        m.update(i, (d, with_value(m[i].1, v)))
    } else {
        m.push((d, seq![v]))
    }
}

/// The model after removing value `v` from directive `d`: a directive left
/// without values is dropped.
pub open spec fn remove_value_model(m: PolicyModel, d: Seq<char>, v: Seq<char>) -> PolicyModel {
    if has_directive(m, d) {
        let i = directive_pos(m, d);
        let rest = without_value(m[i].1, v);
        if rest.len() == 0 {
            m.remove(i)
        } else {
            m.update(i, (d, rest))
        }
    } else {
        m
    }
}

/// The model with directive `d` present, appended without values if it was missing.
pub open spec fn ensure_directive_model(m: PolicyModel, d: Seq<char>) -> PolicyModel {
    if has_directive(m, d) {
        m
    } else {
        m.push((d, Seq::<Seq<char>>::empty()))
    }
}

/// In a model without repeated names, a position whose name is `d` is `d`'s position.
pub proof fn lemma_directive_pos_unique(m: PolicyModel, d: Seq<char>, i: int)
    requires
        directive_names(m).no_duplicates(),
        0 <= i < m.len(),
        m[i].0 == d,
    ensures
        has_directive(m, d),
        directive_pos(m, d) == i,
{
    assert(directive_names(m)[i] == d);
    let j = directive_pos(m, d);
    assert(directive_names(m)[j] == d);
}

/// In a sequence without repeats, a position holding `v` is `v`'s position.
pub proof fn lemma_index_of_unique(s: Seq<Seq<char>>, v: Seq<char>, k: int)
    requires
        s.no_duplicates(),
        0 <= k < s.len(),
        s[k] == v,
    ensures
        s.contains(v),
        s.index_of(v) == k,
{
    assert(s[k] == v);
    let j = s.index_of(v);
    assert(s[j] == v);
}

/// The model after adding each of `vals`, in order, to directive `d`.
pub open spec fn add_values_model(m: PolicyModel, d: Seq<char>, vals: Seq<Seq<char>>) -> PolicyModel
    decreases vals.len(),
{
    if vals.len() == 0 {
        m
    } else {
        add_value_model(add_values_model(m, d, vals.drop_last()), d, vals.last())
    }
}

/// The model after reading one directive group given by its words: the first
/// word names the directive, the others are its values; a group without
/// words changes nothing.
pub open spec fn apply_group_model(m: PolicyModel, toks: Seq<Seq<char>>) -> PolicyModel {
    if toks.len() == 0 {
        m
    } else {
        ensure_directive_model(add_values_model(m, toks[0], toks.drop_first()), toks[0])
    }
}

/// The model read from the given directive groups, in order, from an empty policy.
pub open spec fn apply_groups_model(groups: Seq<Seq<char>>) -> PolicyModel
    decreases groups.len(),
{
    if groups.len() == 0 {
        Seq::<(Seq<char>, Seq<Seq<char>>)>::empty()
    } else {
        apply_group_model(apply_groups_model(groups.drop_last()), words(groups.last()))
    }
}

/// The policy that a CSP string denotes: the string is cut at every `;`,
/// each piece is split into whitespace-separated words, pieces without words
/// are skipped, and each other piece adds its values to the directive that
/// its first word names (the directive is created, possibly without values,
/// when it is not there yet).
pub open spec fn parse_model(s: Seq<char>) -> PolicyModel {
    apply_groups_model(split_on(s, ';'))
}

/// The items of `list` with `sep` between each two of them.
pub open spec fn join(list: Seq<Seq<char>>, sep: Seq<char>) -> Seq<char>
    decreases list.len(),
{
    if list.len() == 0 {
        Seq::<char>::empty()
    } else if list.len() == 1 {
        list[0]
    } else {
        join(list.drop_last(), sep) + sep + list.last()
    }
}

/// One directive as text: its name, then a space and its values separated by
/// single spaces when it has any.
pub open spec fn render_directive(d: Seq<char>, vals: Seq<Seq<char>>) -> Seq<char> {
    if vals.len() == 0 {
        d
    } else {
        d + seq![' '] + join(vals, seq![' '])
    }
}

/// The CSP string of a policy: its directives, rendered in order, separated by `"; "`.
pub open spec fn render_policy(m: PolicyModel) -> Seq<char> {
    join(
        m.map_values(|e: (Seq<char>, Seq<Seq<char>>)| render_directive(e.0, e.1)),
        seq![';', ' '],
    )
}

/// A set of source values of one directive, with no value twice, in the order
/// in which they were added.
pub struct ValueSet {
    items: Vec<String>,
}

impl View for ValueSet {
    type V = Seq<Seq<char>>;

    closed spec fn view(&self) -> Seq<Seq<char>> {
        self.items@.map_values(|s: String| s@)
    }
}

impl Clone for ValueSet {
    /// A copy holding the same values in the same order.
    fn clone(&self) -> (r: Self)
        ensures
            r@ == self@,
    {
        let mut items: Vec<String> = Vec::new();
        let mut i: usize = 0;
        while i < self.items.len()
            invariant
                i <= self.items.len(),
                items@.map_values(|s: String| s@) == self@.take(i as int),
            decreases self.items.len() - i,
        {
            let c = self.items[i].clone();
            assert(c@ == self@[i as int]);
            let ghost before = items@;
            items.push(c);
            assert(items@.map_values(|s: String| s@) =~= before.map_values(|s: String| s@).push(c@));
            assert(self@.take(i + 1) =~= self@.take(i as int).push(self@[i as int]));
            i = i + 1;
        }
        let r = ValueSet { items };
        assert(r@ =~= self@);
        r
    }
}

impl ValueSet {
    /// The number of values.
    pub fn len(&self) -> (r: usize)
        ensures
            r == self@.len(),
    {
        self.items.len()
    }

    /// Whether there is no value.
    pub fn is_empty(&self) -> (r: bool)
        ensures
            r == (self@.len() == 0),
    {
        self.items.len() == 0
    }

    /// The position of `value`, if it is in the set.
    fn position(&self, value: &String) -> (r: Option<usize>)
        ensures
            match r {
                Some(k) => k < self@.len() && self@[k as int] == value@,
                None => !self@.contains(value@),
            },
    {
        let mut k: usize = 0;
        while k < self.items.len()
            invariant
                k <= self.items.len(),
                forall|j: int| 0 <= j < k ==> self@[j] != value@,
            decreases self.items.len() - k,
        {
            if self.items[k] == *value {
                return Some(k);
            }
            k = k + 1;
        }
        proof {
            assert forall|j: int| 0 <= j < self@.len() implies self@[j] != value@ by {}
        }
        None
    }

    /// Whether `value` is in the set.
    pub fn contains(&self, value: &str) -> (r: bool)
        ensures
            r == self@.contains(value@),
    {
        let v = value.to_owned();
        match self.position(&v) {
            Some(k) => {
                assert(self@[k as int] == value@);
                true
            },
            None => false,
        }
    }

    /// The value at position `i`, if there is one.
    pub fn get(&self, i: usize) -> (r: Option<&String>)
        ensures
            match r {
                Some(s) => i < self@.len() && s@ == self@[i as int],
                None => i >= self@.len(),
            },
    {
        if i < self.items.len() {
            Some(&self.items[i])
        } else {
            None
        }
    }

    /// The values, in order.
    pub fn as_slice(&self) -> (r: &[String])
        ensures
            r@.map_values(|s: String| s@) == self@,
    {
        self.items.as_slice()
    }
}


/// A Content Security Policy: directives in the order they were first
/// added, each with its set of source values.
pub struct CspPolicy {
    entries: Vec<(String, ValueSet)>,
}

impl View for CspPolicy {
    type V = PolicyModel;

    closed spec fn view(&self) -> PolicyModel {
        self.entries@.map_values(|e: (String, ValueSet)| (e.0@, e.1@))
    }
}

impl Clone for CspPolicy {
    /// A copy holding the same directives and values in the same order.
    fn clone(&self) -> (r: Self)
        ensures
            r@ == self@,
    {
        proof {
            use_type_invariant(self);
        }
        let mut entries: Vec<(String, ValueSet)> = Vec::new();
        let mut i: usize = 0;
        while i < self.entries.len()
            invariant
                i <= self.entries.len(),
                entries@.map_values(|e: (String, ValueSet)| (e.0@, e.1@)) == self@.take(i as int),
            decreases self.entries.len() - i,
        {
            let e = &self.entries[i];
            let n = e.0.clone();
            let v = e.1.clone();
            assert(n@ == self@[i as int].0);
            assert(v@ == self@[i as int].1);
            let ghost before = entries@;
            entries.push((n, v));
            assert(entries@.map_values(|e: (String, ValueSet)| (e.0@, e.1@)) =~= before.map_values(
                |e: (String, ValueSet)| (e.0@, e.1@),
            ).push((n@, v@)));
            assert(self@.take(i + 1) =~= self@.take(i as int).push(self@[i as int]));
            assert(entries@.map_values(|e: (String, ValueSet)| (e.0@, e.1@)) =~= self@.take(i + 1));
            i = i + 1;
        }
        assert(entries@.map_values(|e: (String, ValueSet)| (e.0@, e.1@)) =~= self@);
        CspPolicy { entries }
    }
}

impl Default for CspPolicy {
    /// An empty policy.
    fn default() -> (r: Self)
        ensures
            r@ == Seq::<(Seq<char>, Seq<Seq<char>>)>::empty(),
    {
        CspPolicy::new()
    }
}

impl CspPolicy {
    #[verifier::type_invariant]
    closed spec fn inv(self) -> bool {
        policy_wf(self@) && bare_directives_named(self@)
    }

    /// An empty policy.
    pub fn new() -> (r: Self)
        ensures
            r@ == Seq::<(Seq<char>, Seq<Seq<char>>)>::empty(),
    {
        let r = CspPolicy { entries: Vec::new() };
        assert(r@ =~= Seq::<(Seq<char>, Seq<Seq<char>>)>::empty());
        r
    }

    /// The position of the directive named `d`, if there is one.
    fn find(entries: &Vec<(String, ValueSet)>, d: &String) -> (r: Option<usize>)
        requires
            policy_wf(entries@.map_values(|e: (String, ValueSet)| (e.0@, e.1@))),
        ensures
            ({
                let m = entries@.map_values(|e: (String, ValueSet)| (e.0@, e.1@));
                match r {
                    Some(i) => i < m.len() && has_directive(m, d@) && directive_pos(m, d@)
                        == i,
                    None => !has_directive(m, d@),
                }
            }),
    {
        let ghost m = entries@.map_values(|e: (String, ValueSet)| (e.0@, e.1@));
        let mut i: usize = 0;
        while i < entries.len()
            invariant
                i <= entries.len(),
                m == entries@.map_values(|e: (String, ValueSet)| (e.0@, e.1@)),
                policy_wf(m),
                forall|j: int| 0 <= j < i ==> m[j].0 != d@,
            decreases entries.len() - i,
        {
            if entries[i].0 == *d {
                proof {
                    lemma_directive_pos_unique(m, d@, i as int);
                }
                return Some(i);
            }
            i = i + 1;
        }
        proof {
            if has_directive(m, d@) {
                let j = directive_pos(m, d@);
                assert(directive_names(m)[j] == d@);
                assert(m[j].0 == d@);
            }
        }
        None
    }

    /// Adds `value` to directive `directive`, creating the directive at the end
    /// when it is not there yet.
    pub fn add_value(&mut self, directive: &str, value: &str)
        ensures
            final(self)@ == add_value_model(old(self)@, directive@, value@),
            policy_wf(final(self)@),
    {
        proof {
            use_type_invariant(&*self);
        }
        let ghost m = self@;
        let d = directive.to_owned();
        let v = value.to_owned();
        let mut entries: Vec<(String, ValueSet)> = Vec::new();
        std::mem::swap(&mut entries, &mut self.entries);
        assert(entries@.map_values(|e: (String, ValueSet)| (e.0@, e.1@)) == m);
        match Self::find(&entries, &d) {
            Some(i) => {
                let (name, mut vals) = entries.remove(i);
                proof {
                    assert(directive_names(m)[i as int] == d@);
                    assert(name@ == d@);
                    assert(vals@ == m[i as int].1);
                }
                match vals.position(&v) {
                    Some(_) => {},
                    None => {
                        vals.items.push(v);
                        assert(vals@ =~= m[i as int].1.push(value@));
                    },
                }
                assert(vals@ == with_value(m[i as int].1, value@));
                entries.insert(i, (name, vals));
                proof {
                    let m2 = entries@.map_values(|e: (String, ValueSet)| (e.0@, e.1@));
                    assert(m2 =~= m.update(i as int, (d@, with_value(m[i as int].1, value@))));
                    assert(directive_names(m2) =~= directive_names(m));
                    assert forall|k: int| 0 <= k < m2.len() implies (#[trigger] m2[k]).1.no_duplicates() by {
                        if k != i {
                            assert(m2[k] == m[k]);
                        }
                    }
                }
            },
            None => {
                let mut items: Vec<String> = Vec::new();
                items.push(v);
                let vs = ValueSet { items };
                assert(vs@ =~= seq![value@]);
                entries.push((d, vs));
                proof {
                    let m2 = entries@.map_values(|e: (String, ValueSet)| (e.0@, e.1@));
                    assert(m2 =~= m.push((directive@, seq![value@])));
                    assert(directive_names(m2) =~= directive_names(m).push(directive@));
                    assert forall|k: int| 0 <= k < m2.len() implies (#[trigger] m2[k]).1.no_duplicates() by {
                        if k < m.len() {
                            assert(m2[k] == m[k]);
                        }
                    }
                }
            },
        }
        self.entries = entries;
    }

    /// Removes `value` from directive `directive`; a directive left without
    /// values is dropped. Nothing changes when the directive is absent.
    pub fn remove_value(&mut self, directive: &str, value: &str)
        ensures
            final(self)@ == remove_value_model(old(self)@, directive@, value@),
            policy_wf(final(self)@),
    {
        proof {
            use_type_invariant(&*self);
        }
        let ghost m = self@;
        let d = directive.to_owned();
        let v = value.to_owned();
        let mut entries: Vec<(String, ValueSet)> = Vec::new();
        std::mem::swap(&mut entries, &mut self.entries);
        assert(entries@.map_values(|e: (String, ValueSet)| (e.0@, e.1@)) == m);
        match Self::find(&entries, &d) {
            Some(i) => {
                let (name, mut vals) = entries.remove(i);
                let ghost old_vals = m[i as int].1;
                proof {
                    assert(directive_names(m)[i as int] == d@);
                    assert(name@ == d@);
                    assert(vals@ == old_vals);
                }
                match vals.position(&v) {
                    Some(k) => {
                        vals.items.remove(k);
                        proof {
                            lemma_index_of_unique(old_vals, value@, k as int);
                            assert(vals@ =~= old_vals.remove(k as int));
                        }
                    },
                    None => {},
                }
                assert(vals@ == without_value(old_vals, value@));
                if vals.items.len() == 0 {
                    proof {
                        let m2 = entries@.map_values(|e: (String, ValueSet)| (e.0@, e.1@));
                        assert(m2 =~= m.remove(i as int));
                        assert(directive_names(m2) =~= directive_names(m).remove(i as int));
                        assert forall|k: int| 0 <= k < m2.len() implies (#[trigger] m2[k]).1.no_duplicates() by {
                            if k < i {
                                assert(m2[k] == m[k]);
                            } else {
                                assert(m2[k] == m[k + 1]);
                            }
                        }
                    }
                } else {
                    entries.insert(i, (name, vals));
                    proof {
                        let m2 = entries@.map_values(|e: (String, ValueSet)| (e.0@, e.1@));
                        assert(m2 =~= m.update(i as int, (d@, without_value(old_vals, value@))));
                        assert(directive_names(m2) =~= directive_names(m));
                        assert forall|k: int| 0 <= k < m2.len() implies (#[trigger] m2[k]).1.no_duplicates() by {
                            if k != i {
                                assert(m2[k] == m[k]);
                            } else if old_vals.contains(value@) {
                                let p = old_vals.index_of(value@);
                                assert forall|a: int, b: int| 0 <= a < b < m2[k].1.len() implies m2[k].1[a] != m2[k].1[b] by {
                                    let a0 = if a < p { a } else { a + 1 };
                                    let b0 = if b < p { b } else { b + 1 };
                                    assert(m2[k].1[a] == old_vals[a0]);
                                    assert(m2[k].1[b] == old_vals[b0]);
                                }
                            }
                        }
                    }
                }
            },
            None => {},
        }
        self.entries = entries;
    }

    /// Removes every directive.
    pub fn clear(&mut self)
        ensures
            final(self)@ == Seq::<(Seq<char>, Seq<Seq<char>>)>::empty(),
    {
        self.entries = Vec::new();
        assert(self@ =~= Seq::<(Seq<char>, Seq<Seq<char>>)>::empty());
    }

    /// Whether the policy has no directive.
    pub fn is_empty(&self) -> (r: bool)
        ensures
            r == (self@.len() == 0),
            r == (render_policy(self@).len() == 0),
    {
        proof {
            use_type_invariant(self);
            lemma_render_empty(self@);
        }
        self.entries.len() == 0
    }

    /// The values of directive `directive`, or `None` when it is absent.
    pub fn get_values(&self, directive: &str) -> (r: Option<&ValueSet>)
        ensures
            match lookup(self@, directive@) {
                Some(vals) => r is Some && r.unwrap()@ == vals,
                None => r is None,
            },
    {
        proof {
            use_type_invariant(self);
        }
        let d = directive.to_owned();
        match Self::find(&self.entries, &d) {
            Some(i) => Some(&self.entries[i].1),
            None => None,
        }
    }

    /// Every directive with its values, in order.
    pub fn get_directives(&self) -> (r: Vec<(&String, &ValueSet)>)
        ensures
            r@.len() == self@.len(),
            forall|i: int| 0 <= i < r@.len() ==> (#[trigger] r@[i]).0@ == self@[i].0 && r@[i].1@ == self@[i].1,
            policy_wf(self@),
    {
        proof {
            use_type_invariant(self);
        }
        let mut r: Vec<(&String, &ValueSet)> = Vec::new();
        let mut i: usize = 0;
        while i < self.entries.len()
            invariant
                i <= self.entries.len(),
                r@.len() == i,
                forall|j: int| 0 <= j < i ==> (#[trigger] r@[j]).0@ == self@[j].0 && r@[j].1@ == self@[j].1,
            decreases self.entries.len() - i,
        {
            let e = &self.entries[i];
            r.push((&e.0, &e.1));
            i = i + 1;
        }
        r
    }

    /// Makes sure directive `directive` is present, appending it without
    /// values when it is missing.
    fn ensure_directive(&mut self, directive: &String)
        requires
            directive@.len() > 0,
        ensures
            final(self)@ == ensure_directive_model(old(self)@, directive@),
    {
        proof {
            use_type_invariant(&*self);
        }
        let ghost m = self@;
        match Self::find(&self.entries, directive) {
            Some(_) => {},
            None => {
                let mut entries: Vec<(String, ValueSet)> = Vec::new();
                std::mem::swap(&mut entries, &mut self.entries);
                let vs = ValueSet { items: Vec::new() };
                assert(vs@ =~= Seq::<Seq<char>>::empty());
                entries.push((directive.clone(), vs));
                proof {
                    let m2 = entries@.map_values(|e: (String, ValueSet)| (e.0@, e.1@));
                    assert(m2 =~= m.push((directive@, Seq::<Seq<char>>::empty())));
                    assert(directive_names(m2) =~= directive_names(m).push(directive@));
                    assert forall|k: int| 0 <= k < m2.len() implies (#[trigger] m2[k]).1.no_duplicates() by {
                        if k < m.len() {
                            assert(m2[k] == m[k]);
                        }
                    }
                }
                self.entries = entries;
            },
        }
    }

    /// Reads a policy from a CSP string (see `parse_model`). Reading never fails.
    pub fn parse(csp_string: &str) -> (r: Result<CspPolicy, String>)
        ensures
            r is Ok,
            r.unwrap()@ == parse_model(csp_string@),
    {
        let mut policy = CspPolicy::new();
        let chars = chars_of(csp_string);
        let groups = split_chars(&chars, ';');
        let ghost gs = groups@.map_values(|p: Vec<char>| p@);
        let mut g: usize = 0;
        assert(gs.take(0) =~= Seq::<Seq<char>>::empty());
        while g < groups.len()
            invariant
                g <= groups.len(),
                gs == groups@.map_values(|p: Vec<char>| p@),
                gs == split_on(csp_string@, ';'),
                policy@ == apply_groups_model(gs.take(g as int)),
            decreases groups.len() - g,
        {
            let toks = words_of(&groups[g]);
            let ghost ts = toks@.map_values(|p: Vec<char>| p@);
            let ghost before = policy@;
            proof {
                assert(gs.take(g + 1).drop_last() =~= gs.take(g as int));
                assert(gs.take(g + 1).last() == gs[g as int]);
            }
            if toks.len() > 0 {
                let directive = string_from_chars(&toks[0], 0, toks[0].len());
                assert(toks[0]@.subrange(0, toks[0]@.len() as int) =~= toks[0]@);
                assert(directive@ == ts[0]);
                let mut t: usize = 1;
                assert(ts.drop_first().take(0) =~= Seq::<Seq<char>>::empty());
                while t < toks.len()
                    invariant
                        1 <= t <= toks.len(),
                        ts == toks@.map_values(|p: Vec<char>| p@),
                        directive@ == ts[0],
                        policy@ == add_values_model(before, ts[0], ts.drop_first().take(t - 1)),
                    decreases toks.len() - t,
                {
                    let value = string_from_chars(&toks[t], 0, toks[t].len());
                    assert(toks[t as int]@.subrange(0, toks[t as int]@.len() as int) =~= toks[t as int]@);
                    policy.add_value(directive.as_str(), value.as_str());
                    proof {
                        assert(ts.drop_first().take(t as int).drop_last() =~= ts.drop_first().take(t - 1));
                        assert(ts.drop_first().take(t as int).last() == ts[t as int]);
                    }
                    t = t + 1;
                }
                assert(ts.drop_first().take(ts.len() - 1) =~= ts.drop_first());
                proof {
                    lemma_words_items(gs[g as int], ';');
                    assert(ts[0].len() > 0);
                }
                policy.ensure_directive(&directive);
            }
            g = g + 1;
        }
        assert(gs.take(gs.len() as int) =~= gs);
        Ok(policy)
    }

    /// Appends the items of `vals` to `out`, separated by single spaces.
    fn append_joined_values(vals: &ValueSet, out: &mut String)
        ensures
            final(out)@ == old(out)@ + join(vals@, seq![' ']),
    {
        let ghost start = out@;
        let mut k: usize = 0;
        assert(vals@.take(0) =~= Seq::<Seq<char>>::empty());
        assert(out@ =~= start + join(vals@.take(0), seq![' ']));
        while k < vals.items.len()
            invariant
                k <= vals.items.len(),
                vals@ == vals.items@.map_values(|s: String| s@),
                out@ == start + join(vals@.take(k as int), seq![' ']),
            decreases vals.items.len() - k,
        {
            proof {
                assert(vals@.take(k + 1).drop_last() =~= vals@.take(k as int));
                assert(vals@.take(k + 1).last() == vals@[k as int]);
            }
            if k > 0 {
                push_char(out, ' ');
            }
            out.append(vals.items[k].as_str());
            assert(out@ =~= start + join(vals@.take(k + 1), seq![' ']));
            k = k + 1;
        }
        assert(vals@.take(vals@.len() as int) =~= vals@);
    }

    /// The CSP string of the policy (see `render_policy`).
    pub fn to_string(&self) -> (r: String)
        ensures
            r@ == render_policy(self@),
    {
        let ghost pieces = self@.map_values(
            |e: (Seq<char>, Seq<Seq<char>>)| render_directive(e.0, e.1),
        );
        let mut out = String::new();
        let mut i: usize = 0;
        assert(pieces.take(0) =~= Seq::<Seq<char>>::empty());
        assert(out@ =~= join(pieces.take(0), seq![';', ' ']));
        while i < self.entries.len()
            invariant
                i <= self.entries.len(),
                pieces == self@.map_values(
                    |e: (Seq<char>, Seq<Seq<char>>)| render_directive(e.0, e.1),
                ),
                out@ == join(pieces.take(i as int), seq![';', ' ']),
            decreases self.entries.len() - i,
        {
            proof {
                assert(pieces.take(i + 1).drop_last() =~= pieces.take(i as int));
                assert(pieces.take(i + 1).last() == pieces[i as int]);
            }
            let ghost before = out@;
            if i > 0 {
                push_char(&mut out, ';');
                push_char(&mut out, ' ');
            }
            let ghost mid = out@;
            let e = &self.entries[i];
            out.append(e.0.as_str());
            if e.1.items.len() > 0 {
                push_char(&mut out, ' ');
                Self::append_joined_values(&e.1, &mut out);
            }
            proof {
                assert(out@ =~= mid + render_directive(e.0@, e.1@));
                if i > 0 {
                    assert(mid =~= before + seq![';', ' ']);
                } else {
                    assert(mid =~= before);
                }
            }
            assert(out@ =~= join(pieces.take(i + 1), seq![';', ' ']));
            i = i + 1;
        }
        assert(pieces.take(pieces.len() as int) =~= pieces);
        out
    }

    /// The number of characters of the CSP string.
    pub fn char_count(&self) -> (r: usize)
        ensures
            r == render_policy(self@).len(),
    {
        let s = self.to_string();
        let chars = chars_of(s.as_str());
        chars.len()
    }
}


/// When every directive without values has a name, the CSP string is empty
/// exactly when the policy has no directive.
pub proof fn lemma_render_empty(m: PolicyModel)
    requires
        bare_directives_named(m),
    ensures
        render_policy(m).len() == 0 <==> m.len() == 0,
{
    let pieces = m.map_values(|e: (Seq<char>, Seq<Seq<char>>)| render_directive(e.0, e.1));
    if m.len() == 1 {
        assert(pieces[0] == render_directive(m[0].0, m[0].1));
        if m[0].1.len() == 0 {
            assert(m[0].0.len() > 0);
        }
        assert(render_directive(m[0].0, m[0].1).len() > 0);
    } else if m.len() >= 2 {
        assert(join(pieces, seq![';', ' ']) == join(pieces.drop_last(), seq![';', ' ']) + seq![
            ';',
            ' ',
        ] + pieces.last());
    }
}

/// Adding a value keeps a policy well formed.
pub proof fn lemma_add_value_wf(m: PolicyModel, d: Seq<char>, v: Seq<char>)
    requires
        policy_wf(m),
    ensures
        policy_wf(add_value_model(m, d, v)),
{
    let m2 = add_value_model(m, d, v);
    if has_directive(m, d) {
        let i = directive_pos(m, d);
        assert(directive_names(m)[i] == d);
        assert(directive_names(m2) =~= directive_names(m));
        assert forall|k: int| 0 <= k < m2.len() implies (#[trigger] m2[k]).1.no_duplicates() by {
            if k != i {
                assert(m2[k] == m[k]);
            }
        }
    } else {
        assert(directive_names(m2) =~= directive_names(m).push(d));
        assert forall|k: int| 0 <= k < m2.len() implies (#[trigger] m2[k]).1.no_duplicates() by {
            if k < m.len() {
                assert(m2[k] == m[k]);
            }
        }
    }
}

/// After a value is added to a directive, the directive is there and holds
/// the value; every other directive keeps its values.
pub proof fn lemma_add_then_lookup(m: PolicyModel, d: Seq<char>, v: Seq<char>, other: Seq<char>)
    requires
        policy_wf(m),
    ensures
        lookup(add_value_model(m, d, v), d) is Some,
        lookup(add_value_model(m, d, v), d).unwrap().contains(v),
        other != d ==> lookup(add_value_model(m, d, v), other) == lookup(m, other),
{
    let m2 = add_value_model(m, d, v);
    if has_directive(m, d) {
        let i = directive_pos(m, d);
        assert(directive_names(m)[i] == d);
        assert(directive_names(m2) =~= directive_names(m));
        assert(m2[i].0 == d);
        lemma_directive_pos_unique(m2, d, i);
        assert(with_value(m[i].1, v).contains(v)) by {
            if !m[i].1.contains(v) {
                assert(m[i].1.push(v)[m[i].1.len() as int] == v);
            }
        }
        if other != d && has_directive(m, other) {
            let j = directive_pos(m, other);
            assert(directive_names(m)[j] == other);
            assert(m2[j] == m[j]);
            lemma_directive_pos_unique(m2, other, j);
        }
    } else {
        let i = m.len() as int;
        assert(directive_names(m2) =~= directive_names(m).push(d));
        assert(m2[i].0 == d);
        lemma_directive_pos_unique(m2, d, i);
        assert(seq![v][0] == v);
        if other != d {
            if has_directive(m, other) {
                let j = directive_pos(m, other);
                assert(directive_names(m)[j] == other);
                assert(m2[j] == m[j]);
                lemma_directive_pos_unique(m2, other, j);
            } else {
                assert forall|k: int| 0 <= k < m2.len() implies directive_names(m2)[k] != other by {
                    if k < m.len() {
                        assert(directive_names(m)[k] == directive_names(m2)[k]);
                    }
                }
            }
        }
    }
}

/// Adding the same value twice is the same as adding it once.
pub proof fn lemma_add_value_idempotent(m: PolicyModel, d: Seq<char>, v: Seq<char>)
    requires
        policy_wf(m),
    ensures
        add_value_model(add_value_model(m, d, v), d, v) == add_value_model(m, d, v),
{
    let m2 = add_value_model(m, d, v);
    lemma_add_value_wf(m, d, v);
    lemma_add_then_lookup(m, d, v, d);
    let i = directive_pos(m2, d);
    assert(directive_names(m2)[i] == d);
    assert(m2[i].1.contains(v));
    assert(add_value_model(m2, d, v) =~= m2.update(i, (d, m2[i].1)));
    assert(m2[i] == (d, m2[i].1));
    assert(m2.update(i, (d, m2[i].1)) =~= m2);
}

/// After a value is removed from a directive, the directive no longer holds
/// it (the directive is gone when it held nothing else); every other
/// directive keeps its values.
pub proof fn lemma_remove_then_lookup(m: PolicyModel, d: Seq<char>, v: Seq<char>, other: Seq<char>)
    requires
        policy_wf(m),
    ensures
        match lookup(remove_value_model(m, d, v), d) {
            Some(vals) => !vals.contains(v),
            None => true,
        },
        other != d ==> lookup(remove_value_model(m, d, v), other) == lookup(m, other),
{
    let m2 = remove_value_model(m, d, v);
    if has_directive(m, d) {
        let i = directive_pos(m, d);
        assert(directive_names(m)[i] == d);
        let vals = m[i].1;
        let rest = without_value(vals, v);
        assert(!rest.contains(v)) by {
            if vals.contains(v) {
                let p = vals.index_of(v);
                assert(vals[p] == v);
                if rest.contains(v) {
                    let q = choose|q: int| 0 <= q < rest.len() && rest[q] == v;
                    if q < p {
                        assert(rest[q] == vals[q]);
                    } else {
                        assert(rest[q] == vals[q + 1]);
                    }
                }
            }
        }
        if rest.len() == 0 {
            assert(directive_names(m2) =~= directive_names(m).remove(i));
            assert forall|k: int| 0 <= k < m2.len() implies directive_names(m2)[k] != d by {
                if k < i {
                    assert(directive_names(m2)[k] == directive_names(m)[k]);
                } else {
                    assert(directive_names(m2)[k] == directive_names(m)[k + 1]);
                }
            }
            if other != d && has_directive(m, other) {
                let j = directive_pos(m, other);
                assert(directive_names(m)[j] == other);
                let j2 = if j < i { j } else { j - 1 };
                assert(m2[j2] == m[j]);
                lemma_directive_pos_unique(m2, other, j2);
            } else if other != d {
                assert forall|k: int| 0 <= k < m2.len() implies directive_names(m2)[k] != other by {
                    if k < i {
                        assert(directive_names(m2)[k] == directive_names(m)[k]);
                    } else {
                        assert(directive_names(m2)[k] == directive_names(m)[k + 1]);
                    }
                }
            }
        } else {
            assert(directive_names(m2) =~= directive_names(m));
            assert(m2[i].0 == d);
            lemma_directive_pos_unique(m2, d, i);
            if other != d && has_directive(m, other) {
                let j = directive_pos(m, other);
                assert(directive_names(m)[j] == other);
                assert(m2[j] == m[j]);
                lemma_directive_pos_unique(m2, other, j);
            }
        }
    }
}

/// Adding a value to a directive the policy does not have, then removing
/// that value again, gives back the original policy.
pub proof fn lemma_add_then_remove_fresh(m: PolicyModel, d: Seq<char>, v: Seq<char>)
    requires
        policy_wf(m),
        !has_directive(m, d),
    ensures
        remove_value_model(add_value_model(m, d, v), d, v) == m,
{
    let m2 = add_value_model(m, d, v);
    let i = m.len() as int;
    assert(directive_names(m2) =~= directive_names(m).push(d));
    assert(m2[i].0 == d);
    lemma_directive_pos_unique(m2, d, i);
    let one = seq![v];
    assert(one[0] == v);
    lemma_index_of_unique(one, v, 0);
    assert(without_value(one, v) =~= Seq::<Seq<char>>::empty());
    assert(m2.remove(i) =~= m);
}

/// Adding a value and removing it again gives back the policy, whenever the
/// directive is absent, or present with other values but not with this one.
pub proof fn lemma_add_then_remove(m: PolicyModel, d: Seq<char>, v: Seq<char>)
    requires
        policy_wf(m),
        match lookup(m, d) {
            Some(vals) => vals.len() > 0 && !vals.contains(v),
            None => true,
        },
    ensures
        remove_value_model(add_value_model(m, d, v), d, v) == m,
{
    if !has_directive(m, d) {
        lemma_add_then_remove_fresh(m, d, v);
    } else {
        let i = directive_pos(m, d);
        assert(directive_names(m)[i] == d);
        let vals = m[i].1;
        let m2 = add_value_model(m, d, v);
        assert(m2 == m.update(i, (d, vals.push(v))));
        assert(directive_names(m2) =~= directive_names(m));
        assert(m2[i].0 == d);
        lemma_directive_pos_unique(m2, d, i);
        let grown = vals.push(v);
        assert(grown.no_duplicates()) by {
            assert forall|a: int, b: int| 0 <= a < b < grown.len() implies grown[a] != grown[b] by {
                if b == vals.len() {
                    assert(grown[a] == vals[a]);
                }
            }
        }
        lemma_index_of_unique(grown, v, vals.len() as int);
        assert(grown.remove(vals.len() as int) =~= vals);
        assert(m[i] == (d, vals));
        assert(m2.update(i, (d, vals)) =~= m);
    }
}

/// Directives keep the order in which they were first added: adding a value
/// appends a new directive at the end and otherwise leaves the names as they
/// are; removing a value drops only its directive, and only when no value is
/// left; making sure a directive is there appends it when it was missing.
pub proof fn lemma_directive_order(m: PolicyModel, d: Seq<char>, v: Seq<char>)
    requires
        policy_wf(m),
    ensures
        directive_names(add_value_model(m, d, v)) == (if has_directive(m, d) {
            directive_names(m)
        } else {
            directive_names(m).push(d)
        }),
        directive_names(remove_value_model(m, d, v)) == (if has_directive(m, d) && without_value(
            m[directive_pos(m, d)].1,
            v,
        ).len() == 0 {
            directive_names(m).remove(directive_pos(m, d))
        } else {
            directive_names(m)
        }),
        directive_names(ensure_directive_model(m, d)) == (if has_directive(m, d) {
            directive_names(m)
        } else {
            directive_names(m).push(d)
        }),
{
    if has_directive(m, d) {
        let i = directive_pos(m, d);
        assert(directive_names(m)[i] == d);
        assert(directive_names(add_value_model(m, d, v)) =~= directive_names(m));
        if without_value(m[i].1, v).len() == 0 {
            assert(directive_names(remove_value_model(m, d, v)) =~= directive_names(m).remove(i));
        } else {
            assert(directive_names(remove_value_model(m, d, v)) =~= directive_names(m));
        }
    } else {
        assert(directive_names(add_value_model(m, d, v)) =~= directive_names(m).push(d));
        assert(directive_names(ensure_directive_model(m, d)) =~= directive_names(m).push(d));
    }
}

/// A word that reads back as itself: not empty, without whitespace and without `;`.
pub open spec fn plain_token(t: Seq<char>) -> bool {
    t.len() > 0 && forall|i: int| 0 <= i < t.len() ==> !is_ws(#[trigger] t[i]) && t[i] != ';'
}

/// A policy whose directive names and values are all plain words.
pub open spec fn plain_policy(m: PolicyModel) -> bool {
    forall|k: int|
        0 <= k < m.len() ==> plain_token((#[trigger] m[k]).0) && forall|j: int|
            0 <= j < m[k].1.len() ==> plain_token(#[trigger] m[k].1[j])
}

/// Text without `;`.
pub open spec fn no_semicolon(s: Seq<char>) -> bool {
    forall|i: int| 0 <= i < s.len() ==> #[trigger] s[i] != ';'
}

/// Plain values joined by spaces read back as the same values, and hold no `;`.
proof fn lemma_join_values_words(vals: Seq<Seq<char>>)
    requires
        forall|j: int| 0 <= j < vals.len() ==> plain_token(#[trigger] vals[j]),
    ensures
        words(join(vals, seq![' '])) == vals,
        no_semicolon(join(vals, seq![' '])),
    decreases vals.len(),
{
    if vals.len() == 0 {
        assert(words(Seq::<char>::empty()) =~= vals);
    } else if vals.len() == 1 {
        assert(plain_token(vals[0]));
        lemma_words_no_ws(vals[0]);
        assert(seq![vals[0]] =~= vals);
    } else {
        let init = vals.drop_last();
        assert forall|j: int| 0 <= j < init.len() implies plain_token(#[trigger] init[j]) by {
            assert(init[j] == vals[j]);
        }
        lemma_join_values_words(init);
        let last = vals.last();
        assert(plain_token(vals[vals.len() - 1]));
        lemma_words_no_ws(last);
        assert(is_ws(' '));
        lemma_words_concat(join(init, seq![' ']), ' ', last);
        assert(init + seq![last] =~= vals);
        let j = join(init, seq![' ']) + seq![' '] + last;
        assert forall|i: int| 0 <= i < j.len() implies #[trigger] j[i] != ';' by {
            let a = join(init, seq![' ']);
            if i < a.len() {
                assert(j[i] == a[i]);
            } else if i > a.len() {
                assert(j[i] == last[i - a.len() - 1]);
            }
        }
    }
}

/// A plain directive renders into text that reads back as its name followed
/// by its values, and holds no `;`.
proof fn lemma_render_directive_words(d: Seq<char>, vals: Seq<Seq<char>>)
    requires
        plain_token(d),
        forall|j: int| 0 <= j < vals.len() ==> plain_token(#[trigger] vals[j]),
    ensures
        words(render_directive(d, vals)) == seq![d] + vals,
        no_semicolon(render_directive(d, vals)),
{
    lemma_words_no_ws(d);
    if vals.len() == 0 {
        assert(seq![d] + vals =~= seq![d]);
    } else {
        lemma_join_values_words(vals);
        assert(is_ws(' '));
        lemma_words_concat(d, ' ', join(vals, seq![' ']));
        let a = join(vals, seq![' ']);
        let r = d + seq![' '] + a;
        assert forall|i: int| 0 <= i < r.len() implies #[trigger] r[i] != ';' by {
            if i < d.len() {
                assert(r[i] == d[i]);
            } else if i > d.len() {
                assert(r[i] == a[i - d.len() - 1]);
            }
        }
    }
}

/// The pieces that cutting a `"; "`-joined text at `;` gives back: the first
/// item, then each later item behind a space.
pub open spec fn spaced(pieces: Seq<Seq<char>>) -> Seq<Seq<char>> {
    Seq::new(pieces.len(), |k: int| if k == 0 { pieces[0] } else { seq![' '] + pieces[k] })
}

/// Cutting a `"; "`-joined text at `;` gives the items back, each later one
/// behind a space.
proof fn lemma_split_joined(pieces: Seq<Seq<char>>)
    requires
        pieces.len() >= 1,
        forall|k: int| 0 <= k < pieces.len() ==> no_semicolon(#[trigger] pieces[k]),
    ensures
        split_on(join(pieces, seq![';', ' ']), ';') == spaced(pieces),
    decreases pieces.len(),
{
    if pieces.len() == 1 {
        assert(no_semicolon(pieces[0]));
        lemma_split_on_no_sep(pieces[0], ';');
        assert(spaced(pieces) =~= seq![pieces[0]]);
    } else {
        let init = pieces.drop_last();
        assert forall|k: int| 0 <= k < init.len() implies no_semicolon(#[trigger] init[k]) by {
            assert(init[k] == pieces[k]);
        }
        lemma_split_joined(init);
        let last = pieces.last();
        assert(no_semicolon(pieces[pieces.len() - 1]));
        let tail = seq![' '] + last;
        assert forall|i: int| 0 <= i < tail.len() implies tail[i] != ';' by {
            if i > 0 {
                assert(tail[i] == last[i - 1]);
            }
        }
        lemma_split_on_no_sep(tail, ';');
        let j = join(init, seq![';', ' ']);
        assert(j + seq![';', ' '] + last =~= j + seq![';'] + tail);
        lemma_split_on_concat(j, tail, ';');
        assert(spaced(pieces) =~= spaced(init) + seq![tail]);
    }
}

/// Adding distinct values one by one to a directive the policy lacks appends
/// that directive with exactly those values.
proof fn lemma_add_values_fresh(p: PolicyModel, d: Seq<char>, vals: Seq<Seq<char>>)
    requires
        directive_names(p).no_duplicates(),
        !has_directive(p, d),
        vals.no_duplicates(),
    ensures
        vals.len() == 0 ==> add_values_model(p, d, vals) == p,
        vals.len() > 0 ==> add_values_model(p, d, vals) == p.push((d, vals)),
    decreases vals.len(),
{
    if vals.len() > 0 {
        let init = vals.drop_last();
        assert(init.no_duplicates());
        lemma_add_values_fresh(p, d, init);
        let v = vals.last();
        if init.len() == 0 {
            assert(seq![v] =~= vals);
        } else {
            let q = p.push((d, init));
            assert(directive_names(q) =~= directive_names(p).push(d));
            assert(q[p.len() as int].0 == d);
            lemma_directive_pos_unique(q, d, p.len() as int);
            assert(!init.contains(v)) by {
                if init.contains(v) {
                    let k = choose|k: int| 0 <= k < init.len() && init[k] == v;
                    assert(vals[k] == vals[vals.len() - 1]);
                }
            }
            assert(init.push(v) =~= vals);
            assert(q.update(p.len() as int, (d, vals)) =~= p.push((d, vals)));
        }
    }
}

/// Reading groups whose words are each directive's name followed by its
/// values rebuilds the policy.
proof fn lemma_apply_groups_rebuilds(groups: Seq<Seq<char>>, m: PolicyModel)
    requires
        policy_wf(m),
        groups.len() == m.len(),
        forall|k: int| 0 <= k < m.len() ==> words(#[trigger] groups[k]) == seq![m[k].0] + m[k].1,
    ensures
        apply_groups_model(groups) == m,
    decreases groups.len(),
{
    if groups.len() == 0 {
        assert(m =~= Seq::<(Seq<char>, Seq<Seq<char>>)>::empty());
    } else {
        let gi = groups.drop_last();
        let mi = m.drop_last();
        let n = m.len() - 1;
        assert(directive_names(mi) =~= directive_names(m).drop_last());
        assert forall|k: int| 0 <= k < mi.len() implies (#[trigger] mi[k]).1.no_duplicates() by {
            assert(mi[k] == m[k]);
        }
        assert forall|k: int| 0 <= k < mi.len() implies words(#[trigger] gi[k]) == seq![mi[k].0]
            + mi[k].1 by {
            assert(gi[k] == groups[k]);
            assert(mi[k] == m[k]);
        }
        lemma_apply_groups_rebuilds(gi, mi);
        let d = m[n].0;
        let vals = m[n].1;
        let toks = words(groups[n]);
        assert(toks == seq![d] + vals);
        assert(toks[0] == d);
        assert(toks.drop_first() =~= vals);
        assert(!has_directive(mi, d)) by {
            if has_directive(mi, d) {
                let k = choose|k: int| 0 <= k < directive_names(mi).len() && directive_names(mi)[k] == d;
                assert(directive_names(m)[k] == directive_names(m)[n]);
            }
        }
        assert(vals.no_duplicates());
        lemma_add_values_fresh(mi, d, vals);
        assert(mi.push((d, vals)) =~= m);
        assert(groups.last() == groups[n]);
        assert(apply_groups_model(groups) == apply_group_model(mi, toks));
        if vals.len() > 0 {
            assert(add_values_model(mi, d, vals) == m);
            assert(directive_names(m)[n] == d);
            assert(has_directive(m, d));
        } else {
            assert(add_values_model(mi, d, vals) == mi);
            assert(!has_directive(mi, d));
            assert(vals =~= Seq::<Seq<char>>::empty());
            assert(ensure_directive_model(mi, d) == mi.push((d, Seq::<Seq<char>>::empty())));
        }
    }
}

/// Reading back the CSP string of a policy gives the same policy, when all
/// directive names and values are plain words.
pub proof fn lemma_parse_render_roundtrip(m: PolicyModel)
    requires
        policy_wf(m),
        plain_policy(m),
    ensures
        parse_model(render_policy(m)) == m,
{
    let pieces = m.map_values(|e: (Seq<char>, Seq<Seq<char>>)| render_directive(e.0, e.1));
    assert forall|k: int| 0 <= k < m.len() implies words(#[trigger] pieces[k]) == seq![m[k].0]
        + m[k].1 && no_semicolon(pieces[k]) by {
        assert(plain_token(m[k].0));
        assert forall|j: int| 0 <= j < m[k].1.len() implies plain_token(#[trigger] m[k].1[j]) by {}
        lemma_render_directive_words(m[k].0, m[k].1);
    }
    if m.len() == 0 {
        assert(render_policy(m) =~= Seq::<char>::empty());
        assert(split_on(Seq::<char>::empty(), ';') =~= seq![Seq::<char>::empty()]);
        assert(words(Seq::<char>::empty()) =~= Seq::<Seq<char>>::empty());
        let g1 = seq![Seq::<char>::empty()];
        assert(g1.drop_last() =~= Seq::<Seq<char>>::empty());
        assert(g1.last() == Seq::<char>::empty());
        assert(apply_groups_model(g1.drop_last()) == Seq::<(Seq<char>, Seq<Seq<char>>)>::empty());
        assert(apply_groups_model(g1) =~= m);
    } else {
        lemma_split_joined(pieces);
        let groups = spaced(pieces);
        assert forall|k: int| 0 <= k < m.len() implies words(#[trigger] groups[k]) == seq![m[k].0]
            + m[k].1 by {
            if k > 0 {
                assert(is_ws(' '));
                lemma_words_concat(Seq::<char>::empty(), ' ', pieces[k]);
                assert(Seq::<char>::empty() + seq![' '] + pieces[k] =~= groups[k]);
                assert(words(Seq::<char>::empty()) =~= Seq::<Seq<char>>::empty());
                assert(Seq::<Seq<char>>::empty() + words(pieces[k]) =~= words(pieces[k]));
            }
        }
        lemma_apply_groups_rebuilds(groups, m);
    }
}

/// Adding a plain value to a plain directive keeps a policy well formed and plain.
proof fn lemma_add_value_plain(m: PolicyModel, d: Seq<char>, v: Seq<char>)
    requires
        policy_wf(m),
        plain_policy(m),
        plain_token(d),
        plain_token(v),
    ensures
        policy_wf(add_value_model(m, d, v)),
        plain_policy(add_value_model(m, d, v)),
{
    lemma_add_value_wf(m, d, v);
    let m2 = add_value_model(m, d, v);
    if has_directive(m, d) {
        let i = directive_pos(m, d);
        assert(directive_names(m)[i] == d);
        assert forall|k: int| 0 <= k < m2.len() implies plain_token((#[trigger] m2[k]).0) && forall|j: int|
            0 <= j < m2[k].1.len() ==> plain_token(#[trigger] m2[k].1[j]) by {
            if k != i {
                assert(m2[k] == m[k]);
            } else {
                assert forall|j: int| 0 <= j < m2[k].1.len() implies plain_token(#[trigger] m2[k].1[j]) by {
                    if j < m[i].1.len() {
                        assert(m2[k].1[j] == m[i].1[j]);
                    }
                }
            }
        }
    } else {
        assert forall|k: int| 0 <= k < m2.len() implies plain_token((#[trigger] m2[k]).0) && forall|j: int|
            0 <= j < m2[k].1.len() ==> plain_token(#[trigger] m2[k].1[j]) by {
            if k < m.len() {
                assert(m2[k] == m[k]);
            } else {
                assert(m2[k].1 == seq![v]);
            }
        }
    }
}

/// Adding plain values to a plain directive keeps a policy well formed and plain.
proof fn lemma_add_values_plain(m: PolicyModel, d: Seq<char>, vals: Seq<Seq<char>>)
    requires
        policy_wf(m),
        plain_policy(m),
        plain_token(d),
        forall|j: int| 0 <= j < vals.len() ==> plain_token(#[trigger] vals[j]),
    ensures
        policy_wf(add_values_model(m, d, vals)),
        plain_policy(add_values_model(m, d, vals)),
    decreases vals.len(),
{
    if vals.len() > 0 {
        let init = vals.drop_last();
        assert forall|j: int| 0 <= j < init.len() implies plain_token(#[trigger] init[j]) by {
            assert(init[j] == vals[j]);
        }
        lemma_add_values_plain(m, d, init);
        assert(plain_token(vals[vals.len() - 1]));
        lemma_add_value_plain(add_values_model(m, d, init), d, vals.last());
    }
}

/// Reading groups without `;` gives a well-formed policy of plain words.
proof fn lemma_apply_groups_plain(groups: Seq<Seq<char>>)
    requires
        forall|i: int, j: int|
            0 <= i < groups.len() && 0 <= j < groups[i].len() ==> #[trigger] groups[i][j] != ';',
    ensures
        policy_wf(apply_groups_model(groups)),
        plain_policy(apply_groups_model(groups)),
    decreases groups.len(),
{
    if groups.len() == 0 {
        let e = Seq::<(Seq<char>, Seq<Seq<char>>)>::empty();
        assert(directive_names(e) =~= Seq::<Seq<char>>::empty());
    } else {
        let init = groups.drop_last();
        assert forall|i: int, j: int| 0 <= i < init.len() && 0 <= j < init[i].len() implies #[trigger] init[i][j]
            != ';' by {
            assert(init[i] == groups[i]);
        }
        lemma_apply_groups_plain(init);
        let m = apply_groups_model(init);
        let g = groups.last();
        assert forall|k: int| 0 <= k < g.len() implies g[k] != ';' by {
            assert(g[k] == groups[groups.len() - 1][k]);
        }
        lemma_words_items(g, ';');
        let toks = words(g);
        assert forall|t: int| 0 <= t < toks.len() implies plain_token(#[trigger] toks[t]) by {
            assert(toks[t].len() > 0);
            assert forall|j: int| 0 <= j < toks[t].len() implies !is_ws(#[trigger] toks[t][j]) && toks[t][j]
                != ';' by {}
        }
        if toks.len() > 0 {
            let d = toks[0];
            let vals = toks.drop_first();
            assert forall|j: int| 0 <= j < vals.len() implies plain_token(#[trigger] vals[j]) by {
                assert(vals[j] == toks[j + 1]);
            }
            assert(plain_token(toks[0]));
            lemma_add_values_plain(m, d, vals);
            let p = add_values_model(m, d, vals);
            if !has_directive(p, d) {
                let p2 = p.push((d, Seq::<Seq<char>>::empty()));
                assert(directive_names(p2) =~= directive_names(p).push(d));
                assert forall|k: int| 0 <= k < p2.len() implies (#[trigger] p2[k]).1.no_duplicates() by {
                    if k < p.len() {
                        assert(p2[k] == p[k]);
                    }
                }
                assert forall|k: int| 0 <= k < p2.len() implies plain_token((#[trigger] p2[k]).0) && forall|
                    j: int,
                | 0 <= j < p2[k].1.len() ==> plain_token(#[trigger] p2[k].1[j]) by {
                    if k < p.len() {
                        assert(p2[k] == p[k]);
                    }
                }
            }
        }
    }
}

/// Every policy read from a CSP string is well formed and made of plain words.
pub proof fn lemma_parse_plain(s: Seq<char>)
    ensures
        policy_wf(parse_model(s)),
        plain_policy(parse_model(s)),
{
    lemma_split_on_items(s, ';');
    lemma_apply_groups_plain(split_on(s, ';'));
}

/// Reading back the CSP string of any policy read from a CSP string gives the same policy.
pub proof fn lemma_parse_render_parse(s: Seq<char>)
    ensures
        parse_model(render_policy(parse_model(s))) == parse_model(s),
{
    lemma_parse_plain(s);
    lemma_parse_render_roundtrip(parse_model(s));
}

} // verus!
