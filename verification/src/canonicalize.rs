//! Turns raw RDF triples into deterministic text chunks suitable for embedding.
//!
//! Triples are grouped by subject and by predicate, both in ascending key
//! order; blank-node subjects get stable labels; each group becomes one text
//! block with CURIE-shortened IRIs.
use vstd::prelude::*;
use vstd::string::StringExecFns;

use crate::hash::{fnv1a, hex16, push_hex16, simple_hash, utf8};
use crate::sorted_map::{
    has_key, keys, lemma_lookup_missing, lemma_lookup_upsert, lemma_lower_bound, lemma_sorted_ext,
    lemma_upsert_commute, lemma_upsert_sorted,
    lemma_upsert_twice, lookup, lower_bound, lower_bound_exec, sorted_keys, string_keys, upsert,
    upsert_at, value_at,
};
use crate::text::{
    chars_of, ends_with, ends_with_exec, push_char, push_chars, starts_with, starts_with_exec,
    str_eq, string_of_range, to_owned_string,
};

verus! {

broadcast use vstd::string::group_string_axioms;

/// A raw RDF triple as plain strings.
#[derive(Debug, Clone, PartialEq, Eq)]
pub struct RawTriple {
    pub subject: String,
    pub predicate: String,
    pub object: String,
}

impl View for RawTriple {
    type V = (Seq<char>, Seq<char>, Seq<char>);

    open spec fn view(&self) -> (Seq<char>, Seq<char>, Seq<char>) {
        (self.subject@, self.predicate@, self.object@)
    }
}

/// The objects of one predicate, in the order the triples came.
pub type Objects = Vec<String>;

/// Predicates of one subject with their objects, in ascending predicate order.
pub type PredicateMap = Vec<(String, Objects)>;

/// Subjects with their predicates, in ascending subject order.
pub type SubjectGroups = Vec<(String, PredicateMap)>;

/// The model of a predicate map.
pub type PredsModel = Seq<(Seq<char>, Seq<Seq<char>>)>;

/// The model of subject groups.
pub type GroupsModel = Seq<(Seq<char>, PredsModel)>;

pub open spec fn strs(v: Seq<String>) -> Seq<Seq<char>> {
    v.map_values(|s: String| s@)
}

pub open spec fn preds_model(v: Seq<(String, Objects)>) -> PredsModel {
    v.map_values(|e: (String, Objects)| (e.0@, strs(e.1@)))
}

pub open spec fn groups_model(v: Seq<(String, PredicateMap)>) -> GroupsModel {
    v.map_values(|e: (String, PredicateMap)| (e.0@, preds_model(e.1@)))
}

pub open spec fn triples_model(v: Seq<RawTriple>) -> Seq<(Seq<char>, Seq<char>, Seq<char>)> {
    v.map_values(|t: RawTriple| t@)
}

/// Groups with one more triple: its object is appended to the objects of its
/// subject and predicate, creating either where missing.
pub open spec fn add_triple(g: GroupsModel, s: Seq<char>, p: Seq<char>, o: Seq<char>) -> GroupsModel {
    let preds = lookup(g, s, Seq::empty());
    upsert(g, s, upsert(preds, p, lookup(preds, p, Seq::empty()).push(o)))
}

/// The triples grouped by subject, then by predicate.
pub open spec fn spec_group_by_subject(ts: Seq<(Seq<char>, Seq<char>, Seq<char>)>) -> GroupsModel
    decreases ts.len(),
{
    if ts.len() == 0 {
        Seq::empty()
    } else {
        let t = ts.last();
        add_triple(spec_group_by_subject(ts.drop_last()), t.0, t.1, t.2)
    }
}

/// Every subject list and every predicate list is in strictly ascending order.
pub open spec fn groups_sorted(g: GroupsModel) -> bool {
    &&& sorted_keys(keys(g))
    &&& forall|i: int| 0 <= i < g.len() ==> sorted_keys(keys(#[trigger] g[i].1))
}

/// The first prefix entry at or after `i` whose full IRI starts `iri`, used to shorten it.
pub open spec fn shorten_from(ps: Seq<(Seq<char>, Seq<char>)>, iri: Seq<char>, i: int) -> Seq<char>
    decreases ps.len() - i,
{
    if i < 0 || i >= ps.len() {
        iri
    } else if starts_with(iri, ps[i].1) {
        ps[i].0 + iri.skip(ps[i].1.len() as int)
    } else {
        shorten_from(ps, iri, i + 1)
    }
}

/// The first prefix entry at or after `i` whose CURIE prefix starts `curie`, used to expand it.
pub open spec fn expand_from(ps: Seq<(Seq<char>, Seq<char>)>, curie: Seq<char>, i: int) -> Seq<
    char,
>
    decreases ps.len() - i,
{
    if i < 0 || i >= ps.len() {
        curie
    } else if starts_with(curie, ps[i].0) {
        ps[i].1 + curie.skip(ps[i].0.len() as int)
    } else {
        expand_from(ps, curie, i + 1)
    }
}

/// The suffix that types a literal as `xsd:string`, written in full.
pub open spec fn xsd_string_full() -> Seq<char> {
    "^^http://www.w3.org/2001/XMLSchema#string"@
}

/// The suffix that types a literal as `xsd:string`, written as a CURIE.
pub open spec fn xsd_string_curie() -> Seq<char> {
    "^^xsd:string"@
}

/// `obj` without an `xsd:string` type suffix.
pub open spec fn strip_xsd_string(obj: Seq<char>) -> Seq<char> {
    if ends_with(obj, xsd_string_full()) {
        obj.take(obj.len() - xsd_string_full().len())
    } else if ends_with(obj, xsd_string_curie()) {
        obj.take(obj.len() - xsd_string_curie().len())
    } else {
        obj
    }
}

/// First index at or after `i` that is not a `"`.
pub open spec fn quote_prefix_end(t: Seq<char>, i: int) -> int
    decreases t.len() - i,
{
    if i < 0 {
        0
    } else if i >= t.len() {
        t.len() as int
    } else if t[i] == '"' {
        quote_prefix_end(t, i + 1)
    } else {
        i
    }
}

/// Index just past the last character before `to` that is not a `"`.
pub open spec fn quote_suffix_start(t: Seq<char>, to: int) -> int
    decreases to,
{
    if to <= 0 {
        0
    } else if t[to - 1] == '"' {
        quote_suffix_start(t, to - 1)
    } else {
        to
    }
}

/// `t` with all leading and trailing `"` removed (`str::trim_matches('"')`).
pub open spec fn strip_quotes(t: Seq<char>) -> Seq<char> {
    let a = quote_prefix_end(t, 0);
    let b = quote_suffix_start(t, t.len() as int);
    if a < b {
        t.subrange(a, b)
    } else {
        Seq::empty()
    }
}

/// The hash input of one predicate: `p NUL o NUL` for each object `o`.
pub open spec fn objects_hash_input(p: Seq<char>, objs: Seq<Seq<char>>) -> Seq<char>
    decreases objs.len(),
{
    if objs.len() == 0 {
        Seq::empty()
    } else {
        objects_hash_input(p, objs.drop_last()) + p + seq!['\0'] + objs.last() + seq!['\0']
    }
}

/// The hash input of a blank node's predicates, in predicate order.
pub open spec fn hash_input(preds: PredsModel) -> Seq<char>
    decreases preds.len(),
{
    if preds.len() == 0 {
        Seq::empty()
    } else {
        hash_input(preds.drop_last()) + objects_hash_input(preds.last().0, preds.last().1)
    }
}

/// The first object of predicate `p`, if it has any.
pub open spec fn first_object(preds: PredsModel, p: Seq<char>) -> Option<Seq<char>> {
    let objs = lookup(preds, p, Seq::empty());
    if objs.len() > 0 {
        Some(objs[0])
    } else {
        None
    }
}

/// The stable label of a blank node: `_:` and its name or label without
/// quotes, else `_:h` and the hash of its predicates and objects.
pub open spec fn spec_stable_label(name_iri: Seq<char>, label_iri: Seq<char>, preds: PredsModel) -> Seq<
    char,
> {
    match first_object(preds, name_iri) {
        Some(l) => "_:"@ + strip_quotes(l),
        None => match first_object(preds, label_iri) {
            Some(l) => "_:"@ + strip_quotes(l),
            None => "_:h"@ + hex16(fnv1a(utf8(hash_input(preds)))),
        },
    }
}

/// The line of one object in a canonical text block.
pub open spec fn object_line(ps: Seq<(Seq<char>, Seq<char>)>, p: Seq<char>, o: Seq<char>) -> Seq<char> {
    "\n  "@ + shorten_from(ps, p, 0) + ": "@ + shorten_from(ps, strip_xsd_string(o), 0)
}

/// The lines of the objects of one predicate.
pub open spec fn objects_text(ps: Seq<(Seq<char>, Seq<char>)>, p: Seq<char>, objs: Seq<Seq<char>>) -> Seq<
    char,
>
    decreases objs.len(),
{
    if objs.len() == 0 {
        Seq::empty()
    } else {
        objects_text(ps, p, objs.drop_last()) + object_line(ps, p, objs.last())
    }
}

/// The lines of all predicates, in predicate order.
pub open spec fn preds_text(ps: Seq<(Seq<char>, Seq<char>)>, preds: PredsModel) -> Seq<char>
    decreases preds.len(),
{
    if preds.len() == 0 {
        Seq::empty()
    } else {
        preds_text(ps, preds.drop_last()) + objects_text(ps, preds.last().0, preds.last().1)
    }
}

/// The canonical text of one subject: its shortened IRI, then one line
/// `  predicate: object` per object.
pub open spec fn group_text(ps: Seq<(Seq<char>, Seq<char>)>, subject: Seq<char>, preds: PredsModel) -> Seq<
    char,
> {
    shorten_from(ps, subject, 0) + preds_text(ps, preds)
}

/// The chunk of each group: its subject and its canonical text.
pub open spec fn chunks_model(ps: Seq<(Seq<char>, Seq<char>)>, g: GroupsModel) -> Seq<(Seq<char>, Seq<char>)> {
    g.map_values(|e: (Seq<char>, PredsModel)| (e.0, group_text(ps, e.0, e.1)))
}

/// The model of a list of string pairs.
pub open spec fn pairs_model(v: Seq<(String, String)>) -> Seq<(Seq<char>, Seq<char>)> {
    v.map_values(|e: (String, String)| (e.0@, e.1@))
}

/// Converts raw RDF triples into deterministic text chunks suitable for embedding.
pub struct Canonicalizer {
    /// Prefix → full IRI mapping for CURIE shortening.
    prefixes: Vec<(String, String)>,
}

impl Canonicalizer {
    /// The prefix mappings, in the order they are tried.
    pub closed spec fn prefixes(&self) -> Seq<(Seq<char>, Seq<char>)> {
        self.prefixes@.map_values(|e: (String, String)| (e.0@, e.1@))
    }

    /// The full IRI of `code:name`.
    pub open spec fn name_iri(&self) -> Seq<char> {
        expand_from(self.prefixes(), "code:name"@, 0)
    }

    /// The full IRI of `rdfs:label`.
    pub open spec fn label_iri(&self) -> Seq<char> {
        expand_from(self.prefixes(), "rdfs:label"@, 0)
    }

    /// What a subject or object is renamed to: a blank node that is the
    /// subject of a group gets its stable label; anything else stays.
    pub open spec fn rename(&self, g: GroupsModel, x: Seq<char>) -> Seq<char> {
        let i = lower_bound(keys(g), x);
        if starts_with(x, "_:"@) && 0 <= i < g.len() && g[i].0 == x {
            spec_stable_label(self.name_iri(), self.label_iri(), g[i].1)
        } else {
            x
        }
    }

    /// Objects with blank nodes renamed.
    pub open spec fn renamed_objects(&self, g: GroupsModel, objs: Seq<Seq<char>>) -> Seq<Seq<char>> {
        objs.map_values(|o: Seq<char>| self.rename(g, o))
    }

    /// The predicates of a group with blank-node objects renamed.
    pub open spec fn rename_objects(&self, g: GroupsModel, preds: PredsModel) -> PredsModel {
        preds.map_values(|e: (Seq<char>, Seq<Seq<char>>)| (e.0, self.renamed_objects(g, e.1)))
    }

    /// The first `n` groups of `g`, renamed and put back in key order; a group
    /// whose new subject equals an earlier one replaces it.
    pub open spec fn collapse_prefix(&self, g: GroupsModel, n: int) -> GroupsModel
        decreases n,
    {
        if n <= 0 {
            Seq::empty()
        } else {
            let e = g[n - 1];
            upsert(self.collapse_prefix(g, n - 1), self.rename(g, e.0), self.rename_objects(g, e.1))
        }
    }

    /// The groups with blank nodes collapsed.
    pub open spec fn spec_collapse(&self, g: GroupsModel) -> GroupsModel {
        self.collapse_prefix(g, g.len() as int)
    }

    /// The canonical chunks of a list of triples: one `(subject, text)` per
    /// collapsed group, in subject order.
    pub open spec fn spec_canonicalize(&self, ts: Seq<(Seq<char>, Seq<char>, Seq<char>)>) -> Seq<
        (Seq<char>, Seq<char>),
    > {
        chunks_model(self.prefixes(), self.spec_collapse(spec_group_by_subject(ts)))
    }

    /// The default prefixes: `code:`, `rdf:`, `rdfs:` and `xsd:`.
    pub open spec fn default_prefixes() -> Seq<(Seq<char>, Seq<char>)> {
        seq![
            ("code:"@, "https://ds-labs.org/code#"@),
            ("rdf:"@, "http://www.w3.org/1999/02/22-rdf-syntax-ns#"@),
            ("rdfs:"@, "http://www.w3.org/2000/01/rdf-schema#"@),
            ("xsd:"@, "http://www.w3.org/2001/XMLSchema#"@),
        ]
    }

    pub fn new() -> (r: Self)
        ensures
            r.prefixes() == Self::default_prefixes(),
    {
        let mut prefixes: Vec<(String, String)> = Vec::new();
        prefixes.push((to_owned_string("code:"), to_owned_string("https://ds-labs.org/code#")));
        prefixes.push(
            (
                to_owned_string("rdf:"),
                to_owned_string("http://www.w3.org/1999/02/22-rdf-syntax-ns#"),
            ),
        );
        prefixes.push(
            (to_owned_string("rdfs:"), to_owned_string("http://www.w3.org/2000/01/rdf-schema#")),
        );
        prefixes.push((to_owned_string("xsd:"), to_owned_string("http://www.w3.org/2001/XMLSchema#")));
        let r = Self { prefixes };
        assert(r.prefixes() =~= Self::default_prefixes());
        r
    }

    /// Add a custom prefix mapping, tried after the existing ones.
    pub fn with_prefix(self, prefix: &str, iri: &str) -> (r: Self)
        ensures
            r.prefixes() == self.prefixes().push((prefix@, iri@)),
    {
        let mut prefixes = self.prefixes;
        prefixes.push((to_owned_string(prefix), to_owned_string(iri)));
        let r = Self { prefixes };
        assert(r.prefixes() =~= self.prefixes().push((prefix@, iri@)));
        r
    }

    /// Expand a CURIE like `"code:Function"` into its full IRI.
    /// Returns the input unchanged if no prefix matches.
    pub fn expand_curie(&self, curie: &str) -> (r: String)
        ensures
            r@ == expand_from(self.prefixes(), curie@, 0),
    {
        let c = chars_of(curie);
        let mut i: usize = 0;
        while i < self.prefixes.len()
            invariant
                0 <= i <= self.prefixes@.len(),
                c@ == curie@,
                expand_from(self.prefixes(), curie@, 0) == expand_from(self.prefixes(), curie@, i as int),
            decreases self.prefixes.len() - i,
        {
            let p = chars_of(self.prefixes[i].0.as_str());
            if starts_with_exec(&c, &p) {
                let mut out = to_owned_string(self.prefixes[i].1.as_str());
                push_chars(&mut out, &c, p.len(), c.len());
                return out;
            }
            i += 1;
        }
        to_owned_string(curie)
    }

    /// Shorten a full IRI to a CURIE if a matching prefix exists.
    fn shorten_iri(&self, iri: &str) -> (r: String)
        ensures
            r@ == shorten_from(self.prefixes(), iri@, 0),
    {
        let c = chars_of(iri);
        let mut i: usize = 0;
        while i < self.prefixes.len()
            invariant
                0 <= i <= self.prefixes@.len(),
                c@ == iri@,
                shorten_from(self.prefixes(), iri@, 0) == shorten_from(self.prefixes(), iri@, i as int),
            decreases self.prefixes.len() - i,
        {
            let full = chars_of(self.prefixes[i].1.as_str());
            if starts_with_exec(&c, &full) {
                let mut out = to_owned_string(self.prefixes[i].0.as_str());
                push_chars(&mut out, &c, full.len(), c.len());
                return out;
            }
            i += 1;
        }
        to_owned_string(iri)
    }

    /// Group flat triples by subject, then by predicate, both in ascending order.
    pub fn group_by_subject(&self, triples: &[RawTriple]) -> (r: SubjectGroups)
        ensures
            groups_model(r@) == spec_group_by_subject(triples_model(triples@)),
            groups_sorted(groups_model(r@)),
    {
        let mut groups: SubjectGroups = Vec::new();
        let mut i: usize = 0;
        assert(groups_model(groups@) =~= spec_group_by_subject(triples_model(triples@).take(0)));
        while i < triples.len()
            invariant
                0 <= i <= triples@.len(),
                groups_model(groups@) == spec_group_by_subject(triples_model(triples@).take(i as int)),
                groups_sorted(groups_model(groups@)),
            decreases triples.len() - i,
        {
            let t = &triples[i];
            add_triple_exec(&mut groups, t.subject.as_str(), t.predicate.as_str(), t.object.as_str());
            assert(triples_model(triples@).take(i + 1).drop_last() =~= triples_model(triples@).take(
                i as int,
            ));
            i += 1;
        }
        assert(triples_model(triples@).take(triples@.len() as int) =~= triples_model(triples@));
        groups
    }

    /// Replace blank node subjects with a stable label derived from
    /// `code:name` or `rdfs:label` properties, falling back to a hash;
    /// references to them as objects are replaced too.
    pub fn collapse_blank_nodes(&self, groups: SubjectGroups) -> (r: SubjectGroups)
        ensures
            groups_model(r@) == self.spec_collapse(groups_model(groups@)),
            sorted_keys(keys(groups_model(r@))),
    {
        let ghost g = groups_model(groups@);
        let code_name = self.expand_curie("code:name");
        let rdfs_label = self.expand_curie("rdfs:label");
        // The stable label of each blank-node subject, at the position of its group.
        let mut labels: Vec<Option<String>> = Vec::new();
        let mut i: usize = 0;
        while i < groups.len()
            invariant
                0 <= i <= groups@.len(),
                g == groups_model(groups@),
                code_name@ == self.name_iri(),
                rdfs_label@ == self.label_iri(),
                labels@.len() == i,
                forall|k: int| 0 <= k < i ==> label_ok(#[trigger] labels@[k], g[k], self.name_iri(), self.label_iri()),
            decreases groups.len() - i,
        {
            let subj = chars_of(groups[i].0.as_str());
            let underscore = chars_of("_:");
            if starts_with_exec(&subj, &underscore) {
                labels.push(Some(stable_label(code_name.as_str(), rdfs_label.as_str(), &groups[i].1)));
            } else {
                labels.push(None);
            }
            i += 1;
        }
        let mut result: SubjectGroups = Vec::new();
        let mut j: usize = 0;
        while j < groups.len()
            invariant
                0 <= j <= groups@.len(),
                g == groups_model(groups@),
                labels@.len() == groups@.len(),
                forall|k: int| 0 <= k < groups@.len() ==> label_ok(#[trigger] labels@[k], g[k], self.name_iri(), self.label_iri()),
                groups_model(result@) == self.collapse_prefix(g, j as int),
                sorted_keys(keys(groups_model(result@))),
            decreases groups.len() - j,
        {
            let new_subj = self.rename_exec(&groups, &labels, groups[j].0.as_str());
            let new_preds = self.rename_objects_exec(&groups, &labels, &groups[j].1);
            upsert_group(&mut result, new_subj, new_preds);
            j += 1;
        }
        result
    }

    /// What `x` is renamed to, given the groups and the labels of their blank nodes.
    fn rename_exec(&self, groups: &SubjectGroups, labels: &Vec<Option<String>>, x: &str) -> (r: String)
        requires
            labels@.len() == groups@.len(),
            forall|k: int| 0 <= k < groups@.len() ==> label_ok(#[trigger] labels@[k], groups_model(groups@)[k], self.name_iri(), self.label_iri()),
        ensures
            r@ == self.rename(groups_model(groups@), x@),
    {
        let ghost g = groups_model(groups@);
        let xc = chars_of(x);
        assert(string_keys(groups@) =~= keys(g));
        let i = lower_bound_exec(groups, &xc);
        if i < groups.len() && str_eq(groups[i].0.as_str(), x) {
            assert(g[i as int].0 == x@);
            match &labels[i] {
                Some(l) => {
                    return to_owned_string(l.as_str());
                },
                None => {},
            }
        }
        to_owned_string(x)
    }

    /// The predicates of a group with their objects renamed.
    fn rename_objects_exec(&self, groups: &SubjectGroups, labels: &Vec<Option<String>>, preds: &PredicateMap) -> (r: PredicateMap)
        requires
            labels@.len() == groups@.len(),
            forall|k: int| 0 <= k < groups@.len() ==> label_ok(#[trigger] labels@[k], groups_model(groups@)[k], self.name_iri(), self.label_iri()),
        ensures
            preds_model(r@) == self.rename_objects(groups_model(groups@), preds_model(preds@)),
    {
        let ghost g = groups_model(groups@);
        let ghost target = self.rename_objects(g, preds_model(preds@));
        let mut out: PredicateMap = Vec::new();
        let mut i: usize = 0;
        while i < preds.len()
            invariant
                0 <= i <= preds@.len(),
                g == groups_model(groups@),
                labels@.len() == groups@.len(),
                forall|k: int| 0 <= k < groups@.len() ==> label_ok(#[trigger] labels@[k], g[k], self.name_iri(), self.label_iri()),
                target == self.rename_objects(g, preds_model(preds@)),
                preds_model(out@) == target.take(i as int),
            decreases preds.len() - i,
        {
            let objs = &preds[i].1;
            let mut new_objs: Objects = Vec::new();
            let mut k: usize = 0;
            while k < objs.len()
                invariant
                    0 <= k <= objs@.len(),
                    g == groups_model(groups@),
                    labels@.len() == groups@.len(),
                    forall|m: int| 0 <= m < groups@.len() ==> label_ok(#[trigger] labels@[m], g[m], self.name_iri(), self.label_iri()),
                    strs(new_objs@) == self.renamed_objects(g, strs(objs@).take(k as int)),
                decreases objs.len() - k,
            {
                let r = self.rename_exec(groups, labels, objs[k].as_str());
                new_objs.push(r);
                assert(strs(objs@).take(k + 1) =~= strs(objs@).take(k as int).push(objs@[k as int]@));
                assert(self.renamed_objects(g, strs(objs@).take(k as int).push(objs@[k as int]@)) =~= self.renamed_objects(g, strs(objs@).take(k as int)).push(self.rename(g, objs@[k as int]@)));
                assert(strs(new_objs@) =~= self.renamed_objects(g, strs(objs@).take(k + 1)));
                k += 1;
            }
            assert(strs(objs@).take(objs@.len() as int) =~= strs(objs@));
            let ghost prev = out@;
            let ghost entry = (preds@[i as int].0@, self.renamed_objects(g, strs(objs@)));
            out.push((to_owned_string(preds[i].0.as_str()), new_objs));
            assert(preds_model(out@) =~= preds_model(prev).push(entry));
            assert(target.take(i + 1) =~= target.take(i as int).push(entry));
            assert(preds_model(out@) =~= target.take(i + 1));
            i += 1;
        }
        assert(target.take(preds@.len() as int) =~= target);
        out
    }

    /// Canonicalize a single subject group into deterministic text.
    pub fn canonicalize_group(&self, subject: &str, preds: &PredicateMap) -> (r: String)
        ensures
            r@ == group_text(self.prefixes(), subject@, preds_model(preds@)),
    {
        let mut text = self.shorten_iri(subject);
        let ghost head = text@;
        let mut i: usize = 0;
        while i < preds.len()
            invariant
                0 <= i <= preds@.len(),
                text@ == head + preds_text(self.prefixes(), preds_model(preds@).take(i as int)),
            decreases preds.len() - i,
        {
            let pred = preds[i].0.as_str();
            let objs = &preds[i].1;
            let short_pred = self.shorten_iri(pred);
            let ghost before = text@;
            let mut k: usize = 0;
            while k < objs.len()
                invariant
                    0 <= k <= objs@.len(),
                    short_pred@ == shorten_from(self.prefixes(), pred@, 0),
                    text@ == before + objects_text(self.prefixes(), pred@, strs(objs@).take(k as int)),
                decreases objs.len() - k,
            {
                let short_obj = self.normalize_object(objs[k].as_str());
                text.append("\n  ");
                text.append(short_pred.as_str());
                text.append(": ");
                text.append(short_obj.as_str());
                assert(strs(objs@).take(k + 1).drop_last() =~= strs(objs@).take(k as int));
                k += 1;
            }
            assert(strs(objs@).take(objs@.len() as int) =~= strs(objs@));
            assert(preds_model(preds@).take(i + 1).drop_last() =~= preds_model(preds@).take(i as int));
            i += 1;
        }
        assert(preds_model(preds@).take(preds@.len() as int) =~= preds_model(preds@));
        text
    }

    /// Normalize an object value: strip `^^xsd:string`, shorten IRIs.
    fn normalize_object(&self, obj: &str) -> (r: String)
        ensures
            r@ == shorten_from(self.prefixes(), strip_xsd_string(obj@), 0),
    {
        let o = chars_of(obj);
        let full = chars_of("^^http://www.w3.org/2001/XMLSchema#string");
        let curie = chars_of("^^xsd:string");
        let stripped = if ends_with_exec(&o, &full) {
            string_of_range(&o, 0, o.len() - full.len())
        } else if ends_with_exec(&o, &curie) {
            string_of_range(&o, 0, o.len() - curie.len())
        } else {
            to_owned_string(obj)
        };
        assert(o@.take(o@.len() - full@.len()) == o@.subrange(0, o@.len() - full@.len()));
        assert(o@.take(o@.len() - curie@.len()) == o@.subrange(0, o@.len() - curie@.len()));
        self.shorten_iri(stripped.as_str())
    }

    /// Full canonicalization: group → collapse blank nodes → canonicalize each group.
    /// Returns `(subject_iri, canonical_text)` per subject, in subject order.
    pub fn canonicalize(&self, triples: &[RawTriple]) -> (r: Vec<(String, String)>)
        ensures
            pairs_model(r@) == self.spec_canonicalize(
                triples_model(triples@),
            ),
    {
        let groups = self.group_by_subject(triples);
        let groups = self.collapse_blank_nodes(groups);
        let ghost g = groups_model(groups@);
        let mut out: Vec<(String, String)> = Vec::new();
        let mut i: usize = 0;
        while i < groups.len()
            invariant
                0 <= i <= groups@.len(),
                g == groups_model(groups@),
                pairs_model(out@) == chunks_model(self.prefixes(), g.take(i as int)),
            decreases groups.len() - i,
        {
            let text = self.canonicalize_group(groups[i].0.as_str(), &groups[i].1);
            let ghost prev = out@;
            let ghost entry = (g[i as int].0, group_text(self.prefixes(), g[i as int].0, g[i as int].1));
            out.push((to_owned_string(groups[i].0.as_str()), text));
            assert(pairs_model(out@) =~= pairs_model(prev).push(entry));
            assert(chunks_model(self.prefixes(), g.take(i + 1)) =~= chunks_model(self.prefixes(), g.take(i as int)).push(entry));
            assert(pairs_model(out@) =~= chunks_model(self.prefixes(), g.take(i + 1)));
            i += 1;
        }
        assert(g.take(groups@.len() as int) =~= g);
        out
    }
}

/// Adds the object `o` of predicate `p` to a sorted predicate map.
fn add_object(preds: &mut PredicateMap, p: &str, o: &str)
    requires
        sorted_keys(keys(preds_model(old(preds)@))),
    ensures
        preds_model(final(preds)@) == {
            let pm = preds_model(old(preds)@);
            upsert(pm, p@, lookup(pm, p@, Seq::empty()).push(o@))
        },
        sorted_keys(keys(preds_model(final(preds)@))),
{
    let ghost pm = preds_model(preds@);
    let pc = chars_of(p);
    assert(string_keys(preds@) =~= keys(pm));
    let j = lower_bound_exec(preds, &pc);
    proof {
        lemma_upsert_sorted(pm, p@, lookup(pm, p@, Seq::empty()).push(o@));
    }
    if j < preds.len() && str_eq(preds[j].0.as_str(), p) {
        let (k, mut objs) = preds.remove(j);
        let ghost old_objs = strs(objs@);
        objs.push(to_owned_string(o));
        assert(strs(objs@) =~= old_objs.push(o@));
        preds.insert(j, (k, objs));
        assert(preds_model(preds@) =~= upsert(pm, p@, lookup(pm, p@, Seq::empty()).push(o@)));
    } else {
        let mut objs: Objects = Vec::new();
        objs.push(to_owned_string(o));
        preds.insert(j, (to_owned_string(p), objs));
        assert(strs(objs@) =~= Seq::<Seq<char>>::empty().push(o@));
        assert(preds_model(preds@) =~= upsert(pm, p@, lookup(pm, p@, Seq::empty()).push(o@)));
    }
}

/// Adds one triple to sorted subject groups.
fn add_triple_exec(groups: &mut SubjectGroups, s: &str, p: &str, o: &str)
    requires
        groups_sorted(groups_model(old(groups)@)),
    ensures
        groups_model(final(groups)@) == add_triple(groups_model(old(groups)@), s@, p@, o@),
        groups_sorted(groups_model(final(groups)@)),
{
    let ghost g = groups_model(groups@);
    let sc = chars_of(s);
    assert(string_keys(groups@) =~= keys(g));
    let i = lower_bound_exec(groups, &sc);
    let ghost preds = lookup(g, s@, Seq::empty());
    let ghost newp = upsert(preds, p@, lookup(preds, p@, Seq::empty()).push(o@));
    proof {
        lemma_upsert_sorted(g, s@, newp);
    }
    if i < groups.len() && str_eq(groups[i].0.as_str(), s) {
        let (k, mut pm) = groups.remove(i);
        assert(preds_model(pm@) == preds);
        add_object(&mut pm, p, o);
        groups.insert(i, (k, pm));
        assert(groups_model(groups@) =~= upsert(g, s@, newp));
        assert forall|m: int| 0 <= m < groups_model(groups@).len() implies sorted_keys(keys(#[trigger] groups_model(groups@)[m].1)) by {
            if m != i {
                assert(groups_model(groups@)[m] == g[m]);
            }
        }
    } else {
        let mut pm: PredicateMap = Vec::new();
        assert(preds_model(pm@) =~= preds);
        add_object(&mut pm, p, o);
        groups.insert(i, (to_owned_string(s), pm));
        assert(groups_model(groups@) =~= upsert(g, s@, newp));
        assert forall|m: int| 0 <= m < groups_model(groups@).len() implies sorted_keys(keys(#[trigger] groups_model(groups@)[m].1)) by {
            if m < i {
                assert(groups_model(groups@)[m] == g[m]);
            } else if m > i {
                assert(groups_model(groups@)[m] == g[m - 1]);
            }
        }
    }
}

/// Puts a group at its place in sorted groups, replacing a group of the same subject.
fn upsert_group(groups: &mut SubjectGroups, k: String, v: PredicateMap)
    requires
        sorted_keys(keys(groups_model(old(groups)@))),
    ensures
        groups_model(final(groups)@) == upsert(groups_model(old(groups)@), k@, preds_model(v@)),
        sorted_keys(keys(groups_model(final(groups)@))),
{
    let ghost g = groups_model(groups@);
    let ghost vm = preds_model(v@);
    let ghost kv = k@;
    let kc = chars_of(k.as_str());
    assert(string_keys(groups@) =~= keys(g));
    let i = lower_bound_exec(groups, &kc);
    proof {
        lemma_upsert_sorted(g, k@, preds_model(v@));
    }
    if i < groups.len() && str_eq(groups[i].0.as_str(), k.as_str()) {
        groups.set(i, (k, v));
    } else {
        groups.insert(i, (k, v));
    }
    assert(groups_model(groups@) =~= upsert(g, kv, vm));
}

/// `str::trim_matches('"')`.
pub fn strip_literal(s: &str) -> (r: String)
    ensures
        r@ == strip_quotes(s@),
{
    let c = chars_of(s);
    let mut a: usize = 0;
    while a < c.len() && c[a] == '"'
        invariant
            a <= c@.len(),
            c@ == s@,
            quote_prefix_end(s@, 0) == quote_prefix_end(s@, a as int),
        decreases c.len() - a,
    {
        a += 1;
    }
    let mut b: usize = c.len();
    while b > 0 && c[b - 1] == '"'
        invariant
            b <= c@.len(),
            c@ == s@,
            quote_suffix_start(s@, s@.len() as int) == quote_suffix_start(s@, b as int),
        decreases b,
    {
        b -= 1;
    }
    if a < b {
        string_of_range(&c, a, b)
    } else {
        String::new()
    }
}

/// The first object of predicate `p`, if it has any.
fn first_object_exec<'a>(preds: &'a PredicateMap, p: &str) -> (r: Option<&'a String>)
    ensures
        match first_object(preds_model(preds@), p@) {
            Some(o) => r matches Some(x) && x@ == o,
            None => r is None,
        },
{
    let ghost pm = preds_model(preds@);
    let pc = chars_of(p);
    assert(string_keys(preds@) =~= keys(pm));
    let j = lower_bound_exec(preds, &pc);
    if j < preds.len() && str_eq(preds[j].0.as_str(), p) && preds[j].1.len() > 0 {
        Some(&preds[j].1[0])
    } else {
        None
    }
}

/// The stable label of a blank node with these predicates.
fn stable_label(name_iri: &str, label_iri: &str, preds: &PredicateMap) -> (r: String)
    ensures
        r@ == spec_stable_label(name_iri@, label_iri@, preds_model(preds@)),
{
    let found = match first_object_exec(preds, name_iri) {
        Some(l) => Some(l),
        None => first_object_exec(preds, label_iri),
    };
    match found {
        Some(l) => {
            let mut out = String::new();
            out.append("_:");
            let stripped = strip_literal(l.as_str());
            out.append(stripped.as_str());
            out
        },
        None => {
            let ghost pm = preds_model(preds@);
            let mut input = String::new();
            let mut i: usize = 0;
            while i < preds.len()
                invariant
                    0 <= i <= preds@.len(),
                    pm == preds_model(preds@),
                    input@ == hash_input(pm.take(i as int)),
                decreases preds.len() - i,
            {
                let p = preds[i].0.as_str();
                let objs = &preds[i].1;
                let ghost before = input@;
                let mut k: usize = 0;
                while k < objs.len()
                    invariant
                        0 <= k <= objs@.len(),
                        input@ == before + objects_hash_input(p@, strs(objs@).take(k as int)),
                    decreases objs.len() - k,
                {
                    input.append(p);
                    push_char(&mut input, '\0');
                    input.append(objs[k].as_str());
                    push_char(&mut input, '\0');
                    assert(strs(objs@).take(k + 1).drop_last() =~= strs(objs@).take(k as int));
                    k += 1;
                }
                assert(strs(objs@).take(objs@.len() as int) =~= strs(objs@));
                assert(pm.take(i + 1).drop_last() =~= pm.take(i as int));
                i += 1;
            }
            assert(pm.take(preds@.len() as int) =~= pm);
            let h = simple_hash(input.as_str());
            let mut out = String::new();
            out.append("_:h");
            push_hex16(&mut out, h);
            out
        },
    }
}

/// A label slot agrees with its group: blank-node subjects carry their stable label.
pub open spec fn label_ok(
    slot: Option<String>,
    e: (Seq<char>, PredsModel),
    name_iri: Seq<char>,
    label_iri: Seq<char>,
) -> bool {
    if starts_with(e.0, "_:"@) {
        slot matches Some(l) && l@ == spec_stable_label(name_iri, label_iri, e.1)
    } else {
        slot is None
    }
}

/// A text does not start with `p` when they differ at a position both hold.
proof fn lemma_not_starts_with(t: Seq<char>, p: Seq<char>, j: int)
    requires
        0 <= j < p.len(),
        j < t.len(),
        t[j] != p[j],
    ensures
        !starts_with(t, p),
{
    if starts_with(t, p) {
        assert(t.subrange(0, p.len() as int)[j] == t[j]);
    }
}

/// `p + rest` starts with `p`, and what follows `p` is `rest`.
proof fn lemma_starts_with_concat(p: Seq<char>, rest: Seq<char>)
    ensures
        starts_with(p + rest, p),
        (p + rest).skip(p.len() as int) == rest,
{
    assert((p + rest).subrange(0, p.len() as int) =~= p);
    assert((p + rest).skip(p.len() as int) =~= rest);
}

/// Shortening passes over entries whose namespace does not start the IRI.
proof fn lemma_shorten_skip(ps: Seq<(Seq<char>, Seq<char>)>, iri: Seq<char>, i: int, k: int)
    requires
        0 <= i <= k < ps.len(),
        forall|j: int| i <= j < k ==> !starts_with(iri, #[trigger] ps[j].1),
    ensures
        shorten_from(ps, iri, i) == shorten_from(ps, iri, k),
    decreases k - i,
{
    if i < k {
        lemma_shorten_skip(ps, iri, i + 1, k);
    }
}

/// Expansion passes over entries whose CURIE prefix does not start the CURIE.
proof fn lemma_expand_skip(ps: Seq<(Seq<char>, Seq<char>)>, curie: Seq<char>, i: int, k: int)
    requires
        0 <= i <= k < ps.len(),
        forall|j: int| i <= j < k ==> !starts_with(curie, #[trigger] ps[j].0),
    ensures
        expand_from(ps, curie, i) == expand_from(ps, curie, k),
    decreases k - i,
{
    if i < k {
        lemma_expand_skip(ps, curie, i + 1, k);
    }
}

/// A text that starts with `p` is `p` followed by the rest.
proof fn lemma_split_prefix(t: Seq<char>, p: Seq<char>)
    requires
        starts_with(t, p),
    ensures
        p + t.skip(p.len() as int) == t,
{
    assert(p + t.skip(p.len() as int) =~= t);
}

/// With the default prefixes, shortening an IRI under one of their
/// namespaces and expanding the CURIE again gives the IRI back, and the CURIE
/// is shorter than the IRI.
pub proof fn law_shorten_then_expand(iri: Seq<char>)
    requires
        exists|k: int| 0 <= k < 4 && starts_with(iri, #[trigger] Canonicalizer::default_prefixes()[k].1),
    ensures
        expand_from(Canonicalizer::default_prefixes(), shorten_from(Canonicalizer::default_prefixes(), iri, 0), 0)
            == iri,
        shorten_from(Canonicalizer::default_prefixes(), iri, 0).len() < iri.len(),
{
    reveal_strlit("code:");
    reveal_strlit("https://ds-labs.org/code#");
    reveal_strlit("rdf:");
    reveal_strlit("http://www.w3.org/1999/02/22-rdf-syntax-ns#");
    reveal_strlit("rdfs:");
    reveal_strlit("http://www.w3.org/2000/01/rdf-schema#");
    reveal_strlit("xsd:");
    reveal_strlit("http://www.w3.org/2001/XMLSchema#");
    let dp = Canonicalizer::default_prefixes();
    let k = choose|k: int| 0 <= k < 4 && starts_with(iri, #[trigger] dp[k].1);
    let full = dp[k].1;
    let pre = dp[k].0;
    let rest = iri.skip(full.len() as int);
    lemma_split_prefix(iri, full);
    // No earlier namespace matches the IRI: the namespaces differ where both have characters.
    assert forall|j: int| 0 <= j < k implies !starts_with(iri, #[trigger] dp[j].1) by {
        if j == 0 {
            lemma_not_starts_with(iri, dp[0].1, 4);
        } else if j == 1 && k == 2 {
            lemma_not_starts_with(iri, dp[1].1, 18);
        } else if j == 1 {
            lemma_not_starts_with(iri, dp[1].1, 21);
        } else {
            lemma_not_starts_with(iri, dp[2].1, 21);
        }
    }
    lemma_shorten_skip(dp, iri, 0, k);
    let short = pre + rest;
    assert(shorten_from(dp, iri, 0) == short);
    lemma_starts_with_concat(pre, rest);
    // No earlier CURIE prefix matches the CURIE.
    assert forall|j: int| 0 <= j < k implies !starts_with(short, #[trigger] dp[j].0) by {
        if j == 1 && k == 2 {
            lemma_not_starts_with(short, dp[1].0, 3);
        } else {
            lemma_not_starts_with(short, dp[j].0, 0);
        }
    }
    lemma_expand_skip(dp, short, 0, k);
    assert(expand_from(dp, short, 0) == full + rest);
}

/// The predicates that a lookup in sorted groups gives are sorted.
proof fn lemma_lookup_preds_sorted(g: GroupsModel, s: Seq<char>)
    requires
        groups_sorted(g),
    ensures
        sorted_keys(keys(lookup(g, s, Seq::empty()))),
{
    let b = lower_bound(keys(g), s);
    if 0 <= b < g.len() && g[b].0 == s {
        assert(sorted_keys(keys(g[b].1)));
    } else {
        assert(keys(Seq::<(Seq<char>, Seq<Seq<char>>)>::empty()) =~= Seq::<Seq<char>>::empty());
    }
}

/// Adding a triple keeps groups sorted.
proof fn lemma_add_triple_sorted(g: GroupsModel, s: Seq<char>, p: Seq<char>, o: Seq<char>)
    requires
        groups_sorted(g),
    ensures
        groups_sorted(add_triple(g, s, p, o)),
{
    let preds = lookup(g, s, Seq::empty());
    lemma_lookup_preds_sorted(g, s);
    let np = upsert(preds, p, lookup(preds, p, Seq::empty()).push(o));
    lemma_upsert_sorted(preds, p, lookup(preds, p, Seq::empty()).push(o));
    lemma_upsert_sorted(g, s, np);
    let r = upsert(g, s, np);
    let b = lower_bound(keys(g), s);
    lemma_lower_bound(keys(g), s);
    assert forall|i: int| 0 <= i < r.len() implies sorted_keys(keys(#[trigger] r[i].1)) by {
        if 0 <= b < g.len() && g[b].0 == s {
            if i != b {
                assert(r[i] == g[i]);
            }
        } else if i < b {
            assert(r[i] == g[i]);
        } else if i > b {
            assert(r[i] == g[i - 1]);
        }
    }
}

/// Grouping any triples gives sorted groups.
proof fn lemma_group_sorted(ts: Seq<(Seq<char>, Seq<char>, Seq<char>)>)
    ensures
        groups_sorted(spec_group_by_subject(ts)),
    decreases ts.len(),
{
    if ts.len() > 0 {
        lemma_group_sorted(ts.drop_last());
        let t = ts.last();
        lemma_add_triple_sorted(spec_group_by_subject(ts.drop_last()), t.0, t.1, t.2);
    } else {
        assert(keys(Seq::<(Seq<char>, PredsModel)>::empty()) =~= Seq::<Seq<char>>::empty());
    }
}

/// Two triples of different subject or predicate can be added in either order.
proof fn lemma_add_triple_commute(g: GroupsModel, t1: (Seq<char>, Seq<char>, Seq<char>), t2: (Seq<char>, Seq<char>, Seq<char>))
    requires
        groups_sorted(g),
        t1.0 != t2.0 || t1.1 != t2.1,
    ensures
        add_triple(add_triple(g, t1.0, t1.1, t1.2), t2.0, t2.1, t2.2) == add_triple(
            add_triple(g, t2.0, t2.1, t2.2),
            t1.0,
            t1.1,
            t1.2,
        ),
{
    let e: PredsModel = Seq::empty();
    let eo: Seq<Seq<char>> = Seq::empty();
    let p1 = lookup(g, t1.0, e);
    let p2 = lookup(g, t2.0, e);
    lemma_lookup_preds_sorted(g, t1.0);
    lemma_lookup_preds_sorted(g, t2.0);
    let a = upsert(p1, t1.1, lookup(p1, t1.1, eo).push(t1.2));
    let b = upsert(p2, t2.1, lookup(p2, t2.1, eo).push(t2.2));
    let g1 = upsert(g, t1.0, a);
    let g2 = upsert(g, t2.0, b);
    assert(add_triple(g, t1.0, t1.1, t1.2) == g1);
    assert(add_triple(g, t2.0, t2.1, t2.2) == g2);
    lemma_upsert_sorted(g, t1.0, a);
    lemma_upsert_sorted(g, t2.0, b);
    if t1.0 != t2.0 {
        lemma_lookup_upsert(g, t1.0, a, t2.0, e);
        lemma_lookup_upsert(g, t2.0, b, t1.0, e);
        assert(add_triple(g1, t2.0, t2.1, t2.2) == upsert(g1, t2.0, b));
        assert(add_triple(g2, t1.0, t1.1, t1.2) == upsert(g2, t1.0, a));
        lemma_upsert_commute(g, t1.0, a, t2.0, b, e);
    } else {
        let s = t1.0;
        lemma_lookup_upsert(g, s, a, s, e);
        lemma_lookup_upsert(g, s, b, s, e);
        lemma_lookup_upsert(p1, t1.1, lookup(p1, t1.1, eo).push(t1.2), t2.1, eo);
        lemma_lookup_upsert(p1, t2.1, lookup(p1, t2.1, eo).push(t2.2), t1.1, eo);
        let ab = upsert(a, t2.1, lookup(p1, t2.1, eo).push(t2.2));
        let ba = upsert(b, t1.1, lookup(p1, t1.1, eo).push(t1.2));
        assert(add_triple(g1, t2.0, t2.1, t2.2) == upsert(g1, s, ab));
        assert(add_triple(g2, t1.0, t1.1, t1.2) == upsert(g2, s, ba));
        lemma_upsert_twice(g, s, a, ab, e);
        lemma_upsert_twice(g, s, b, ba, e);
        lemma_upsert_commute(p1, t1.1, lookup(p1, t1.1, eo).push(t1.2), t2.1, lookup(p1, t2.1, eo).push(t2.2), eo);
    }
}

/// The triples with the ones at `k` and `k + 1` swapped.
pub open spec fn swap_adjacent<T>(ts: Seq<T>, k: int) -> Seq<T> {
    ts.update(k, ts[k + 1]).update(k + 1, ts[k])
}

/// Grouping does not depend on the order of two neighbouring triples of
/// different subject or predicate.
proof fn lemma_group_swap(ts: Seq<(Seq<char>, Seq<char>, Seq<char>)>, k: int)
    requires
        0 <= k < ts.len() - 1,
        ts[k].0 != ts[k + 1].0 || ts[k].1 != ts[k + 1].1,
    ensures
        spec_group_by_subject(swap_adjacent(ts, k)) == spec_group_by_subject(ts),
    decreases ts.len(),
{
    let w = swap_adjacent(ts, k);
    if k + 2 < ts.len() {
        assert(w.drop_last() =~= swap_adjacent(ts.drop_last(), k));
        assert(w.last() == ts.last());
        lemma_group_swap(ts.drop_last(), k);
    } else {
        let pre = ts.drop_last().drop_last();
        assert(w.drop_last().drop_last() =~= pre);
        assert(w.drop_last().last() == ts[k + 1]);
        assert(w.last() == ts[k]);
        assert(ts.drop_last().last() == ts[k]);
        assert(ts.last() == ts[k + 1]);
        lemma_group_sorted(pre);
        lemma_add_triple_commute(spec_group_by_subject(pre), ts[k], ts[k + 1]);
        let g = spec_group_by_subject(pre);
        assert(spec_group_by_subject(ts.drop_last()) == add_triple(g, ts[k].0, ts[k].1, ts[k].2));
        assert(spec_group_by_subject(w.drop_last()) == add_triple(g, ts[k + 1].0, ts[k + 1].1, ts[k + 1].2));
    }
}

impl Canonicalizer {
    /// Canonical text does not depend on the order of two neighbouring triples
    /// of different subject or predicate; so any reordering that keeps the
    /// order of the triples of each subject and predicate leaves it unchanged.
    pub proof fn law_canonical_order_free(&self, ts: Seq<(Seq<char>, Seq<char>, Seq<char>)>, k: int)
        requires
            0 <= k < ts.len() - 1,
            ts[k].0 != ts[k + 1].0 || ts[k].1 != ts[k + 1].1,
        ensures
            self.spec_canonicalize(swap_adjacent(ts, k)) == self.spec_canonicalize(ts),
    {
        lemma_group_swap(ts, k);
    }
}

/// The objects of the triples with subject `s` and predicate `p`, in order.
pub open spec fn objects_of(ts: Seq<(Seq<char>, Seq<char>, Seq<char>)>, s: Seq<char>, p: Seq<char>) -> Seq<Seq<char>>
    decreases ts.len(),
{
    if ts.len() == 0 {
        Seq::empty()
    } else {
        let rest = objects_of(ts.drop_last(), s, p);
        let t = ts.last();
        if t.0 == s && t.1 == p {
            rest.push(t.2)
        } else {
            rest
        }
    }
}

/// Some triple has subject `s`.
pub open spec fn has_subject(ts: Seq<(Seq<char>, Seq<char>, Seq<char>)>, s: Seq<char>) -> bool
    decreases ts.len(),
{
    ts.len() > 0 && (ts.last().0 == s || has_subject(ts.drop_last(), s))
}

/// A subject is present exactly when it has the objects of some predicate.
proof fn lemma_has_subject(ts: Seq<(Seq<char>, Seq<char>, Seq<char>)>, s: Seq<char>)
    ensures
        has_subject(ts, s) <==> exists|p: Seq<char>| (#[trigger] objects_of(ts, s, p)).len() > 0,
    decreases ts.len(),
{
    if ts.len() > 0 {
        let d = ts.drop_last();
        let t = ts.last();
        lemma_has_subject(d, s);
        if has_subject(ts, s) {
            if t.0 == s {
                assert(objects_of(ts, s, t.1).len() > 0);
            } else {
                let p = choose|p: Seq<char>| (#[trigger] objects_of(d, s, p)).len() > 0;
                assert(objects_of(ts, s, p).len() >= objects_of(d, s, p).len());
            }
        }
        if exists|p: Seq<char>| (#[trigger] objects_of(ts, s, p)).len() > 0 {
            let p = choose|p: Seq<char>| (#[trigger] objects_of(ts, s, p)).len() > 0;
            if !(t.0 == s && t.1 == p) {
                assert(objects_of(d, s, p).len() > 0);
            }
        }
    }
}

/// What grouping holds: a subject has an entry exactly when some triple has
/// it; a predicate has an entry under a subject exactly when it has objects
/// there; and its entry holds those objects in order.
proof fn lemma_group_contents(ts: Seq<(Seq<char>, Seq<char>, Seq<char>)>, s: Seq<char>, p: Seq<char>)
    ensures
        has_key(spec_group_by_subject(ts), s) <==> has_subject(ts, s),
        has_key(lookup(spec_group_by_subject(ts), s, Seq::empty()), p) <==> objects_of(ts, s, p).len() > 0,
        lookup(lookup(spec_group_by_subject(ts), s, Seq::empty()), p, Seq::empty()) == objects_of(ts, s, p),
    decreases ts.len(),
{
    let e: PredsModel = Seq::empty();
    let eo: Seq<Seq<char>> = Seq::empty();
    let g = spec_group_by_subject(ts);
    if ts.len() == 0 {
        assert(keys(g) =~= Seq::<Seq<char>>::empty());
        assert(keys(e) =~= Seq::<Seq<char>>::empty());
        assert(!keys(g).contains(s));
        lemma_lookup_missing(g, s, e);
        assert(!keys(e).contains(p));
        lemma_lookup_missing(e, p, eo);
    } else {
        let d = ts.drop_last();
        let t = ts.last();
        let g0 = spec_group_by_subject(d);
        lemma_group_contents(d, s, p);
        lemma_group_sorted(d);
        let pr = lookup(g0, t.0, e);
        lemma_lookup_preds_sorted(g0, t.0);
        let np = upsert(pr, t.1, lookup(pr, t.1, eo).push(t.2));
        assert(g == upsert(g0, t.0, np));
        lemma_upsert_sorted(g0, t.0, np);
        lemma_upsert_sorted(pr, t.1, lookup(pr, t.1, eo).push(t.2));
        lemma_lookup_upsert(g0, t.0, np, s, e);
        lemma_lookup_upsert(pr, t.1, lookup(pr, t.1, eo).push(t.2), p, eo);
        if s == t.0 {
            lemma_group_contents(d, t.0, p);
        }
    }
}

/// Grouping depends only on the objects of each subject and predicate, in
/// order: two triple lists with the same such objects group alike.
proof fn lemma_group_by_objects(ts1: Seq<(Seq<char>, Seq<char>, Seq<char>)>, ts2: Seq<(Seq<char>, Seq<char>, Seq<char>)>)
    requires
        forall|s: Seq<char>, p: Seq<char>| #[trigger] objects_of(ts1, s, p) == objects_of(ts2, s, p),
    ensures
        spec_group_by_subject(ts1) == spec_group_by_subject(ts2),
{
    let e: PredsModel = Seq::empty();
    let eo: Seq<Seq<char>> = Seq::empty();
    let g1 = spec_group_by_subject(ts1);
    let g2 = spec_group_by_subject(ts2);
    lemma_group_sorted(ts1);
    lemma_group_sorted(ts2);
    assert forall|s: Seq<char>| #[trigger] has_key(g1, s) <==> has_key(g2, s) by {
        lemma_group_contents(ts1, s, Seq::empty());
        lemma_group_contents(ts2, s, Seq::empty());
        lemma_has_subject(ts1, s);
        lemma_has_subject(ts2, s);
        if has_subject(ts1, s) {
            let p = choose|p: Seq<char>| (#[trigger] objects_of(ts1, s, p)).len() > 0;
            assert(objects_of(ts2, s, p).len() > 0);
        }
        if has_subject(ts2, s) {
            let p = choose|p: Seq<char>| (#[trigger] objects_of(ts2, s, p)).len() > 0;
            assert(objects_of(ts1, s, p) == objects_of(ts2, s, p));
        }
    }
    assert forall|s: Seq<char>| #[trigger] lookup(g1, s, e) == lookup(g2, s, e) by {
        let a = lookup(g1, s, e);
        let b = lookup(g2, s, e);
        lemma_lookup_preds_sorted(g1, s);
        lemma_lookup_preds_sorted(g2, s);
        assert forall|p: Seq<char>| #[trigger] has_key(a, p) <==> has_key(b, p) by {
            lemma_group_contents(ts1, s, p);
            lemma_group_contents(ts2, s, p);
            assert(objects_of(ts1, s, p) == objects_of(ts2, s, p));
        }
        assert forall|p: Seq<char>| #[trigger] lookup(a, p, eo) == lookup(b, p, eo) by {
            lemma_group_contents(ts1, s, p);
            lemma_group_contents(ts2, s, p);
            assert(objects_of(ts1, s, p) == objects_of(ts2, s, p));
        }
        lemma_sorted_ext(a, b, eo);
    }
    lemma_sorted_ext(g1, g2, e);
}

impl Canonicalizer {
    /// Canonical text depends only on the objects of each subject and
    /// predicate, in order: any reordering of the triples that keeps, for
    /// each subject and predicate, the order of its objects leaves it
    /// unchanged.
    pub proof fn law_canonical_reorder_free(
        &self,
        ts1: Seq<(Seq<char>, Seq<char>, Seq<char>)>,
        ts2: Seq<(Seq<char>, Seq<char>, Seq<char>)>,
    )
        requires
            forall|s: Seq<char>, p: Seq<char>| #[trigger] objects_of(ts1, s, p) == objects_of(ts2, s, p),
        ensures
            self.spec_canonicalize(ts1) == self.spec_canonicalize(ts2),
    {
        lemma_group_by_objects(ts1, ts2);
    }
}

} // verus!
