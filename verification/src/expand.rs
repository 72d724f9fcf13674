//! Expansion of `$name` references to the manifest's own fields.
use vstd::prelude::*;
use crate::grammar::PkgBuildV;

verus! {

#[verifier::external_type_specification]
#[verifier::external_body]
pub struct ExAhoCorasick(aho_corasick::AhoCorasick);

/// `p` is a prefix of `h`.
pub open spec fn is_prefix(p: Seq<char>, h: Seq<char>) -> bool {
    p.len() <= h.len() && h.subrange(0, p.len() as int) == p
}

/// A set of references that can be found unambiguously: each is `$`
/// followed by at least one character and no further `$`, and none is a
/// prefix of another. Occurrences of such references never overlap.
pub open spec fn references_well_formed(pats: Seq<Seq<char>>) -> bool {
    &&& forall|k: int|
        0 <= k < pats.len() ==> (#[trigger] pats[k]).len() >= 2 && pats[k][0] == '$'
            && forall|j: int| 1 <= j < pats[k].len() ==> pats[k][j] != '$'
    &&& forall|k1: int, k2: int|
        0 <= k1 < pats.len() && 0 <= k2 < pats.len() && k1 != k2 ==> !is_prefix(
            #[trigger] pats[k1],
            #[trigger] pats[k2],
        )
}

/// `h` with every occurrence of `pats[k]`, read from left to right,
/// replaced by `reps[k]`.
pub open spec fn subst(h: Seq<char>, pats: Seq<Seq<char>>, reps: Seq<Seq<char>>) -> Seq<char>
    decreases h.len(),
{
    if h.len() == 0 {
        seq![]
    } else if exists|k: int| 0 <= k < pats.len() && pats[k].len() > 0 && is_prefix(pats[k], h) {
        let k = choose|k: int| 0 <= k < pats.len() && pats[k].len() > 0 && is_prefix(pats[k], h);
        reps[k] + subst(h.skip(pats[k].len() as int), pats, reps)
    } else {
        seq![h[0]] + subst(h.drop_first(), pats, reps)
    }
}

/// The texts of a sequence of strings.
pub open spec fn texts(v: Seq<String>) -> Seq<Seq<char>> {
    v.map_values(|x: String| x@)
}

/// Builds the automaton with `AhoCorasick::builder().build(patterns)`
/// (aho-corasick), with its default, standard match semantics. That build
/// fails only when a state or pattern identifier would overflow its limit or
/// a pattern is too long; the limits are in the billions, far above what at
/// most sixteen patterns of at most sixteen characters need, so the build
/// cannot fail here.
#[verifier::external_body]
fn build_automaton(patterns: &[&str]) -> aho_corasick::AhoCorasick
    requires
        patterns@.len() <= 16,
        forall|k: int| 0 <= k < patterns@.len() ==> (#[trigger] patterns@[k])@.len() <= 16,
{
    aho_corasick::AhoCorasick::builder().build(patterns).expect("the patterns are few and short")
}

/// An automaton that finds a fixed set of references.
pub struct Substituter {
    ac: aho_corasick::AhoCorasick,
    patterns: Ghost<Seq<Seq<char>>>,
}

impl Substituter {
    /// The references that this automaton finds.
    pub closed spec fn patterns(&self) -> Seq<Seq<char>> {
        self.patterns@
    }

    /// An automaton for `patterns`.
    pub(crate) fn new(patterns: &[&str]) -> (r: Substituter)
        requires
            patterns@.len() <= 16,
            forall|k: int| 0 <= k < patterns@.len() ==> (#[trigger] patterns@[k])@.len() <= 16,
        ensures
            r.patterns() == patterns@.map_values(|p: &str| p@),
    {
        let ac = build_automaton(patterns);
        Substituter { ac, patterns: Ghost(patterns@.map_values(|p: &str| p@)) }
    }

    /// Calls `AhoCorasick::replace_all` (aho-corasick) on the automaton that
    /// `new` built from `self.patterns()`: it replaces every non-overlapping
    /// match, as found with standard semantics from left to right, by the
    /// replacement of the same index. For references that are well formed,
    /// occurrences never overlap and at most one reference starts at any
    /// position, so the matches are exactly the occurrences that `subst`
    /// replaces. It panics unless there is one replacement per pattern, which
    /// `requires` rules out.
    #[verifier::external_body]
    pub(crate) fn replace_all(&self, haystack: &str, replace_with: &[String]) -> (r: String)
        requires
            references_well_formed(self.patterns()),
            replace_with@.len() == self.patterns().len(),
        ensures
            r@ == subst(haystack@, self.patterns(), texts(replace_with@)),
    {
        self.ac.replace_all(haystack, replace_with)
    }
}

/// The references that a manifest may use, in the order of their values.
pub open spec fn reference_names() -> Seq<Seq<char>> {
    seq!["$pkgname"@, "$pkgver"@, "$pkgrel"@, "$epoch"@, "$pkgdesc"@, "$url"@]
}

/// The text of an optional field, empty where it is unset.
pub open spec fn or_empty(o: Option<Seq<char>>) -> Seq<char> {
    match o {
        Some(t) => t,
        None => seq![],
    }
}

/// The values that the references stand for in `p`.
pub open spec fn reference_values(p: PkgBuildV) -> Seq<Seq<char>> {
    seq![p.pkgname, p.pkgver, or_empty(p.pkgrel), or_empty(p.epoch), or_empty(p.pkgdesc), or_empty(p.url)]
}

/// `t` with the references to the fields of `p` expanded.
pub open spec fn expand_text(p: PkgBuildV, t: Seq<char>) -> Seq<char> {
    subst(t, reference_names(), reference_values(p))
}

pub open spec fn expand_opt(p: PkgBuildV, o: Option<Seq<char>>) -> Option<Seq<char>> {
    match o {
        Some(t) => Some(expand_text(p, t)),
        None => None,
    }
}

pub open spec fn expand_all(p: PkgBuildV, ts: Seq<Seq<char>>) -> Seq<Seq<char>> {
    ts.map_values(|t: Seq<char>| expand_text(p, t))
}

/// Every field of `p` with its references expanded, all against the values
/// that `p` holds before any expansion.
pub open spec fn expanded(p: PkgBuildV) -> PkgBuildV {
    PkgBuildV {
        pkgname: expand_text(p, p.pkgname),
        pkgver: expand_text(p, p.pkgver),
        pkgrel: expand_opt(p, p.pkgrel),
        epoch: expand_opt(p, p.epoch),
        pkgdesc: expand_opt(p, p.pkgdesc),
        url: expand_opt(p, p.url),
        license: expand_all(p, p.license),
        source: expand_all(p, p.source),
        makedepends: expand_all(p, p.makedepends),
        package: expand_text(p, p.package),
        build: expand_text(p, p.build),
        prepare: expand_text(p, p.prepare),
    }
}

/// The references of a manifest can be found unambiguously.
pub proof fn lemma_reference_names_well_formed()
    ensures
        references_well_formed(reference_names()),
        reference_names().len() == 6,
        forall|k: int| 0 <= k < 6 ==> (#[trigger] reference_names()[k]).len() <= 16,
{
    reveal_strlit("$pkgname");
    reveal_strlit("$pkgver");
    reveal_strlit("$pkgrel");
    reveal_strlit("$epoch");
    reveal_strlit("$pkgdesc");
    reveal_strlit("$url");
    let n = reference_names();
    assert(n[0] =~= seq!['$', 'p', 'k', 'g', 'n', 'a', 'm', 'e']);
    assert(n[1] =~= seq!['$', 'p', 'k', 'g', 'v', 'e', 'r']);
    assert(n[2] =~= seq!['$', 'p', 'k', 'g', 'r', 'e', 'l']);
    assert(n[3] =~= seq!['$', 'e', 'p', 'o', 'c', 'h']);
    assert(n[4] =~= seq!['$', 'p', 'k', 'g', 'd', 'e', 's', 'c']);
    assert(n[5] =~= seq!['$', 'u', 'r', 'l']);
    assert forall|k1: int, k2: int|
        0 <= k1 < n.len() && 0 <= k2 < n.len() && k1 != k2 implies !is_prefix(
            #[trigger] n[k1],
            #[trigger] n[k2],
        ) by {
        if is_prefix(n[k1], n[k2]) {
            let a = n[k1];
            let b = n[k2];
            assert(b.subrange(0, a.len() as int)[1] == a[1]);
            assert(b.subrange(0, a.len() as int)[3] == a[3]);
            assert(b.subrange(0, a.len() as int)[4] == a[4]);
        }
    }
}

/// `t` holds no `$`.
pub open spec fn plain(t: Seq<char>) -> bool {
    forall|j: int| 0 <= j < t.len() ==> t[j] != '$'
}

/// Text without a `$` passes through expansion unchanged, in front of any
/// other text.
pub proof fn lemma_subst_plain_prefix(a: Seq<char>, t: Seq<char>, pats: Seq<Seq<char>>, reps: Seq<Seq<char>>)
    requires
        references_well_formed(pats),
        plain(a),
    ensures
        subst(a + t, pats, reps) == a + subst(t, pats, reps),
    decreases a.len(),
{
    if a.len() == 0 {
        assert(a + t =~= t);
        assert(a + subst(t, pats, reps) =~= subst(t, pats, reps));
    } else {
        let h = a + t;
        assert(h[0] == a[0]);
        assert forall|k: int| 0 <= k < pats.len() && pats[k].len() > 0 implies !is_prefix(pats[k], h) by {
            if is_prefix(pats[k], h) {
                assert(h.subrange(0, pats[k].len() as int)[0] == h[0]);
            }
        }
        assert(h.drop_first() =~= a.drop_first() + t);
        lemma_subst_plain_prefix(a.drop_first(), t, pats, reps);
        assert(seq![a[0]] + (a.drop_first() + subst(t, pats, reps)) =~= a + subst(t, pats, reps));
    }
}

/// Text without a `$` is its own expansion.
pub proof fn lemma_subst_plain(a: Seq<char>, pats: Seq<Seq<char>>, reps: Seq<Seq<char>>)
    requires
        references_well_formed(pats),
        plain(a),
    ensures
        subst(a, pats, reps) == a,
{
    lemma_subst_plain_prefix(a, seq![], pats, reps);
    assert(a + seq![] =~= a);
}

/// A reference, followed by any text, expands to its replacement followed
/// by the expansion of that text.
pub proof fn lemma_subst_reference(k: int, t: Seq<char>, pats: Seq<Seq<char>>, reps: Seq<Seq<char>>)
    requires
        references_well_formed(pats),
        0 <= k < pats.len(),
    ensures
        subst(pats[k] + t, pats, reps) == reps[k] + subst(t, pats, reps),
{
    let h = pats[k] + t;
    assert(h.subrange(0, pats[k].len() as int) =~= pats[k]);
    assert(is_prefix(pats[k], h));
    let c = choose|c: int| 0 <= c < pats.len() && pats[c].len() > 0 && is_prefix(pats[c], h);
    if c != k {
        let a = pats[c];
        let b = pats[k];
        if a.len() <= b.len() {
            assert(b.subrange(0, a.len() as int) =~= h.subrange(0, a.len() as int));
            assert(is_prefix(a, b));
        } else {
            assert(a.subrange(0, b.len() as int) =~= h.subrange(0, b.len() as int));
            assert(is_prefix(b, a));
        }
    }
    assert(h.skip(pats[k].len() as int) =~= t);
}

/// Expansion leaves alone a manifest none of whose fields holds a `$`.
pub proof fn lemma_expanded_plain(p: PkgBuildV)
    requires
        plain(p.pkgname),
        plain(p.pkgver),
        p.pkgrel matches Some(t) ==> plain(t),
        p.epoch matches Some(t) ==> plain(t),
        p.pkgdesc matches Some(t) ==> plain(t),
        p.url matches Some(t) ==> plain(t),
        forall|j: int| 0 <= j < p.license.len() ==> plain(#[trigger] p.license[j]),
        forall|j: int| 0 <= j < p.source.len() ==> plain(#[trigger] p.source[j]),
        forall|j: int| 0 <= j < p.makedepends.len() ==> plain(#[trigger] p.makedepends[j]),
        plain(p.package),
        plain(p.build),
        plain(p.prepare),
    ensures
        expanded(p) == p,
{
    lemma_reference_names_well_formed();
    let n = reference_names();
    let v = reference_values(p);
    lemma_subst_plain(p.pkgname, n, v);
    lemma_subst_plain(p.pkgver, n, v);
    lemma_subst_plain(p.package, n, v);
    lemma_subst_plain(p.build, n, v);
    lemma_subst_plain(p.prepare, n, v);
    if let Some(t) = p.pkgrel {
        lemma_subst_plain(t, n, v);
    }
    if let Some(t) = p.epoch {
        lemma_subst_plain(t, n, v);
    }
    if let Some(t) = p.pkgdesc {
        lemma_subst_plain(t, n, v);
    }
    if let Some(t) = p.url {
        lemma_subst_plain(t, n, v);
    }
    assert forall|j: int| 0 <= j < p.license.len() implies expand_text(p, #[trigger] p.license[j]) == p.license[j] by {
        lemma_subst_plain(p.license[j], n, v);
    }
    assert forall|j: int| 0 <= j < p.source.len() implies expand_text(p, #[trigger] p.source[j]) == p.source[j] by {
        lemma_subst_plain(p.source[j], n, v);
    }
    assert forall|j: int| 0 <= j < p.makedepends.len() implies expand_text(p, #[trigger] p.makedepends[j])
        == p.makedepends[j] by {
        lemma_subst_plain(p.makedepends[j], n, v);
    }
    assert(expand_all(p, p.license) =~= p.license);
    assert(expand_all(p, p.source) =~= p.source);
    assert(expand_all(p, p.makedepends) =~= p.makedepends);
}

/// Every field, every list item and every script of a manifest is expanded
/// against the values that the references stand for in it.
pub proof fn lemma_expanded_fields(p: PkgBuildV)
    ensures
        ({
            let n = reference_names();
            let v = reference_values(p);
            let q = expanded(p);
            &&& q.pkgname == subst(p.pkgname, n, v)
            &&& q.pkgver == subst(p.pkgver, n, v)
            &&& q.package == subst(p.package, n, v)
            &&& q.build == subst(p.build, n, v)
            &&& q.prepare == subst(p.prepare, n, v)
            &&& (p.pkgrel matches Some(t) ==> q.pkgrel == Some(subst(t, n, v)))
            &&& (p.epoch matches Some(t) ==> q.epoch == Some(subst(t, n, v)))
            &&& (p.pkgdesc matches Some(t) ==> q.pkgdesc == Some(subst(t, n, v)))
            &&& (p.url matches Some(t) ==> q.url == Some(subst(t, n, v)))
            &&& (p.pkgrel is None ==> q.pkgrel is None)
            &&& (p.epoch is None ==> q.epoch is None)
            &&& (p.pkgdesc is None ==> q.pkgdesc is None)
            &&& (p.url is None ==> q.url is None)
            &&& q.license.len() == p.license.len()
            &&& q.source.len() == p.source.len()
            &&& q.makedepends.len() == p.makedepends.len()
            &&& forall|i: int| 0 <= i < p.license.len() ==> q.license[i] == subst(#[trigger] p.license[i], n, v)
            &&& forall|i: int| 0 <= i < p.source.len() ==> q.source[i] == subst(#[trigger] p.source[i], n, v)
            &&& forall|i: int|
                0 <= i < p.makedepends.len() ==> q.makedepends[i] == subst(#[trigger] p.makedepends[i], n, v)
        }),
{
}

/// A field, list item or script that is exactly one reference reads back as
/// the value the reference stands for: `$pkgname` as the package name,
/// `$pkgver` as its version, and so on (an unset field stands for nothing).
pub proof fn lemma_reference_alone(p: PkgBuildV, k: int)
    requires
        0 <= k < 6,
    ensures
        ({
            let r = reference_names()[k];
            let val = reference_values(p)[k];
            let q = expanded(p);
            &&& p.pkgname == r ==> q.pkgname == val
            &&& p.pkgver == r ==> q.pkgver == val
            &&& p.package == r ==> q.package == val
            &&& p.build == r ==> q.build == val
            &&& p.prepare == r ==> q.prepare == val
            &&& p.pkgrel == Some(r) ==> q.pkgrel == Some(val)
            &&& p.epoch == Some(r) ==> q.epoch == Some(val)
            &&& p.pkgdesc == Some(r) ==> q.pkgdesc == Some(val)
            &&& p.url == Some(r) ==> q.url == Some(val)
            &&& forall|i: int| 0 <= i < p.license.len() && p.license[i] == r ==> #[trigger] q.license[i] == val
            &&& forall|i: int| 0 <= i < p.source.len() && p.source[i] == r ==> #[trigger] q.source[i] == val
            &&& forall|i: int|
                0 <= i < p.makedepends.len() && p.makedepends[i] == r ==> #[trigger] q.makedepends[i] == val
        }),
{
    lemma_reference_names_well_formed();
    let n = reference_names();
    let v = reference_values(p);
    lemma_subst_reference(k, seq![], n, v);
    assert(n[k] + seq![] =~= n[k]);
    assert(v[k] + seq![] =~= v[k]);
    assert(subst(seq![], n, v) =~= Seq::<char>::empty());
    lemma_expanded_fields(p);
}

} // verus!
