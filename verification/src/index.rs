//! The index: one signature per document, probed at query time.
//!
//! `build` fingerprints each document: every observation contributes its
//! path-only hash, and every primitive-valued observation additionally
//! contributes its `(path, value)` hash — and nothing else: the signature
//! holds exactly the probe bits of those hashes ([`fingerprint_exact`]),
//! sized by the formulae from the observation count. `candidates_eq` and
//! `candidates_defined` normalize the query path, hash it the same way,
//! and return — in ascending position order — exactly the positions whose
//! signature answers membership. Together with the fingerprint coverage
//! this yields the central guarantee, stated in
//! [`lemma_no_false_negative_eq`] and [`lemma_no_false_negative_defined`]:
//! a document holding the queried path (and value) is always a candidate.
//! The exactness clause also makes object field order irrelevant
//! ([`lemma_fingerprint_order_irrelevant`]).

use crate::bloom::BloomFilter;
use crate::extract::{extract_pairs, observations};
use crate::hash::{
    hash_pair, hash_pair_spec, hash_path_only, hash_path_only_spec, hash_predicate,
};
use crate::path::norm;
use crate::value::{is_primitive, obj_model, JsonValue, ValModel};
use vstd::prelude::*;
use vstd::seq_lib::lemma_seq_contains_after_push;
use vstd::slice::slice_index_get;

verus! {

/// Coverage of one document by one filter: every observation's path-only
/// hash is a member, and every primitive observation's pair hash is a
/// member.
pub open spec fn filter_covers(f: BloomFilter, m: ValModel) -> bool {
    forall|o: (Seq<char>, ValModel)| #[trigger]
        observations(m, Seq::empty()).contains(o) ==> f.may_contain(hash_path_only_spec(o.0)) && (
        is_primitive(o.1) ==> f.may_contain(hash_pair_spec(o.0, o.1)))
}

/// The element count a document's filter is sized from: its observation
/// count, floored at 10 and capped at the sizing limit.
pub open spec fn expected_elements(observation_count: nat) -> nat {
    if observation_count < 10 {
        10
    } else if observation_count > crate::bloom::MAX_ELEMENTS as nat {
        crate::bloom::MAX_ELEMENTS as nat
    } else {
        observation_count
    }
}

/// Whether bit `j` lies on a probe of one of the first `n` observations'
/// hashes: the path-only hash of any observation, or the pair hash of a
/// primitive-valued one, in a filter of `m` bits with `k` probes.
pub open spec fn obs_sets_bit(
    obs: Seq<(Seq<char>, ValModel)>,
    n: int,
    j: int,
    m: int,
    k: int,
) -> bool {
    exists|oi: int, p: int|
        #![trigger BloomFilter::probe(hash_path_only_spec(obs[oi].0), p, m)]
        #![trigger BloomFilter::probe(hash_pair_spec(obs[oi].0, obs[oi].1), p, m)]
        0 <= oi < n && 0 <= p < k && (j == BloomFilter::probe(
            hash_path_only_spec(obs[oi].0),
            p,
            m,
        ) || (is_primitive(obs[oi].1) && j == BloomFilter::probe(
            hash_pair_spec(obs[oi].0, obs[oi].1),
            p,
            m,
        )))
}

/// Everything `fingerprint` guarantees of a document's signature:
/// well-formed, bit count and probe count sized by the formulae from the
/// observation count, covering every observation, and holding exactly the
/// probe bits of the observations' hashes — no others. The last clause
/// makes the signature a function of the observation set alone, so object
/// field order cannot matter (see
/// [`lemma_fingerprint_order_irrelevant`]).
pub open spec fn fingerprint_exact(f: BloomFilter, m: ValModel) -> bool {
    let obs = observations(m, Seq::empty());
    let mbits = f.spec_bits().len() as int;
    &&& f.wf()
    &&& filter_covers(f, m)
    &&& f.spec_bits().len() == crate::bloom::sizing_m(expected_elements(obs.len()))
    &&& f.spec_num_hashes() == crate::bloom::sizing_k(expected_elements(obs.len()))
    &&& forall|j: int|
        0 <= j < mbits ==> (f.spec_bits()[j] <==> obs_sets_bit(
            obs,
            obs.len() as int,
            j,
            mbits,
            f.spec_num_hashes(),
        ))
}

/// Build one document's signature: a filter sized from its observation
/// count (floored at 10, capped at the sizing limit) at a 1% target
/// false-positive rate, holding exactly the hashes of its observations.
#[verifier::loop_isolation(false)]
pub fn fingerprint(doc: &JsonValue) -> (r: BloomFilter)
    ensures
        fingerprint_exact(r, doc@),
{
    let pairs = extract_pairs(doc);
    let ghost obs = observations(doc@, Seq::empty());
    let n: usize = if pairs.len() < 10 {
        10
    } else if pairs.len() > crate::bloom::MAX_ELEMENTS {
        crate::bloom::MAX_ELEMENTS
    } else {
        pairs.len()
    };
    proof {
        assert(obj_model(pairs@).len() == pairs@.len());
        assert(n == expected_elements(obs.len()));
    }
    let mut filter = BloomFilter::new(n);
    let mut i: usize = 0;
    while i < pairs.len()
        invariant
            i <= pairs.len(),
            filter.wf(),
            filter.spec_bits().len() == crate::bloom::sizing_m(expected_elements(obs.len())),
            filter.spec_num_hashes() == crate::bloom::sizing_k(expected_elements(obs.len())),
            forall|j: int|
                0 <= j < i ==> filter.may_contain(hash_path_only_spec(#[trigger] obs[j].0)),
            forall|j: int|
                0 <= j < i && is_primitive(obs[j].1) ==> filter.may_contain(
                    hash_pair_spec(#[trigger] obs[j].0, obs[j].1),
                ),
            forall|j: int|
                0 <= j < filter.spec_bits().len() ==> (filter.spec_bits()[j] <==> obs_sets_bit(
                    obs,
                    i as int,
                    j,
                    filter.spec_bits().len() as int,
                    filter.spec_num_hashes(),
                )),
        decreases pairs.len() - i,
    {
        let entry = &pairs[i];
        proof {
            assert(obs[i as int] == (entry.0@, entry.1@));
        }
        let ghost b0 = filter.spec_bits();
        let ghost hpair = hash_pair_spec(obs[i as int].0, obs[i as int].1);
        let ghost hpath = hash_path_only_spec(obs[i as int].0);
        let ghost prim = is_primitive(obs[i as int].1);
        let ghost m = filter.spec_bits().len() as int;
        let ghost kk = filter.spec_num_hashes();
        if entry.1.is_primitive() {
            let h = hash_pair(entry.0.as_str(), &entry.1);
            filter.insert(h);
        }
        let ghost b1 = filter.spec_bits();
        proof {
            assert(forall|j: int|
                0 <= j < m ==> (b1[j] <==> b0[j] || (prim && exists|p: int|
                    0 <= p < kk && j == BloomFilter::probe(hpair, p, m))));
        }
        let hp = hash_path_only(entry.0.as_str());
        filter.insert(hp);
        proof {
            let b2 = filter.spec_bits();
            assert forall|j: int|
                0 <= j < m implies (b2[j] <==> obs_sets_bit(obs, i + 1, j, m, kk)) by {
                if b2[j] {
                    if b0[j] {
                        let (oi, p) = choose|oi: int, p: int|
                            0 <= oi < i && 0 <= p < kk && (j == BloomFilter::probe(
                                hash_path_only_spec(obs[oi].0),
                                p,
                                m,
                            ) || (is_primitive(obs[oi].1) && j == BloomFilter::probe(
                                hash_pair_spec(obs[oi].0, obs[oi].1),
                                p,
                                m,
                            )));
                        assert(obs_sets_bit(obs, i + 1, j, m, kk));
                    } else if b1[j] {
                        let p = choose|p: int|
                            0 <= p < kk && j == BloomFilter::probe(hpair, p, m);
                        assert(is_primitive(obs[i as int].1) && j == BloomFilter::probe(
                            hash_pair_spec(obs[i as int].0, obs[i as int].1),
                            p,
                            m,
                        ));
                        assert(obs_sets_bit(obs, i + 1, j, m, kk));
                    } else {
                        let p = choose|p: int|
                            0 <= p < kk && j == BloomFilter::probe(hpath, p, m);
                        assert(j == BloomFilter::probe(
                            hash_path_only_spec(obs[i as int].0),
                            p,
                            m,
                        ));
                        assert(obs_sets_bit(obs, i + 1, j, m, kk));
                    }
                }
                if obs_sets_bit(obs, i + 1, j, m, kk) {
                    let (oi, p) = choose|oi: int, p: int|
                        0 <= oi < i + 1 && 0 <= p < kk && (j == BloomFilter::probe(
                            hash_path_only_spec(obs[oi].0),
                            p,
                            m,
                        ) || (is_primitive(obs[oi].1) && j == BloomFilter::probe(
                            hash_pair_spec(obs[oi].0, obs[oi].1),
                            p,
                            m,
                        )));
                    if oi < i {
                        assert(obs_sets_bit(obs, i as int, j, m, kk));
                        assert(b0[j]);
                        assert(b1[j]);
                    } else {
                        assert(oi == i);
                        if j == BloomFilter::probe(hash_path_only_spec(obs[oi].0), p, m) {
                            assert(j == BloomFilter::probe(hpath, p, m));
                        } else {
                            assert(is_primitive(obs[i as int].1));
                            assert(j == BloomFilter::probe(hpair, p, m));
                            assert(b1[j]);
                        }
                    }
                    assert(b2[j]);
                }
            }
        }
        i += 1;
    }
    proof {
        assert forall|o: (Seq<char>, ValModel)| #[trigger]
            obs.contains(o) implies filter.may_contain(hash_path_only_spec(o.0)) && (is_primitive(
            o.1,
        ) ==> filter.may_contain(hash_pair_spec(o.0, o.1))) by {
            let j = choose|j: int| 0 <= j < obs.len() && obs[j] == o;
            assert(filter.may_contain(hash_path_only_spec(obs[j].0)));
        }
    }
    filter
}

/// The index: per-document signatures beside per-document identifiers,
/// bound by position.
pub struct Holodex {
    signatures: Vec<BloomFilter>,
    doc_ids: Vec<String>,
}

impl Holodex {
    /// The per-position signatures.
    pub closed spec fn spec_signatures(self) -> Seq<BloomFilter> {
        self.signatures@
    }

    /// The per-position document identifiers.
    pub closed spec fn spec_doc_ids(self) -> Seq<String> {
        self.doc_ids@
    }

    /// Well-formed: the two sequences run in parallel and every signature
    /// is well-formed.
    pub open spec fn wf(self) -> bool {
        &&& self.spec_signatures().len() == self.spec_doc_ids().len()
        &&& forall|d: int|
            0 <= d < self.spec_signatures().len() ==> (#[trigger] self.spec_signatures()[d]).wf()
    }

    /// Whether position `d`'s signature answers membership for hash `h`.
    pub open spec fn sig_may(self, d: int, h: u64) -> bool {
        self.spec_signatures()[d].may_contain(h)
    }

    /// The index was built from `docs`: at each position, a signature
    /// carrying every `fingerprint` guarantee for that document — sizing
    /// of bits and probes included — beside the document's identifier.
    pub open spec fn covers(self, docs: Seq<(String, JsonValue)>) -> bool {
        &&& self.spec_signatures().len() == docs.len()
        &&& forall|d: int|
            0 <= d < docs.len() ==> fingerprint_exact(
                #[trigger] self.spec_signatures()[d],
                docs[d].1@,
            )
        &&& forall|d: int| 0 <= d < docs.len() ==> (#[trigger] self.spec_doc_ids()[d])@ == docs[d].0@
    }

    /// Build the index from `(identifier, document)` pairs, in order.
    #[verifier::loop_isolation(false)]
    pub fn build(docs: &[(String, JsonValue)]) -> (r: Holodex)
        ensures
            r.wf(),
            r.covers(docs@),
    {
        let mut signatures: Vec<BloomFilter> = Vec::new();
        let mut doc_ids: Vec<String> = Vec::new();
        let mut i: usize = 0;
        while i < docs.len()
            invariant
                i <= docs.len(),
                signatures@.len() == i,
                doc_ids@.len() == i,
                forall|d: int|
                    0 <= d < i ==> fingerprint_exact(#[trigger] signatures@[d], docs@[d].1@),
                forall|d: int| 0 <= d < i ==> (#[trigger] doc_ids@[d])@ == docs@[d].0@,
            decreases docs.len() - i,
        {
            let entry = slice_index_get(docs, i);
            let filter = fingerprint(&entry.1);
            signatures.push(filter);
            doc_ids.push(entry.0.clone());
            i += 1;
        }
        Holodex { signatures, doc_ids }
    }

    /// Candidate positions for an equality predicate `path == value`: the
    /// path is normalized, the pair is hashed, and every position whose
    /// signature answers membership is returned, in ascending order.
    /// Every position actually holding the observation is among them.
    #[verifier::loop_isolation(false)]
    pub fn candidates_eq(&self, path: &str, value: &JsonValue) -> (r: Vec<usize>)
        requires
            self.wf(),
        ensures
            forall|j: int|
                0 <= j < r@.len() ==> (#[trigger] r@[j]) < self.spec_signatures().len()
                    && self.sig_may(r@[j] as int, hash_pair_spec(norm(path@), value@)),
            forall|d: int|
                0 <= d < self.spec_signatures().len() && self.sig_may(
                    d,
                    hash_pair_spec(norm(path@), value@),
                ) ==> r@.contains(d as usize),
            forall|j1: int, j2: int| 0 <= j1 < j2 < r@.len() ==> r@[j1] < r@[j2],
    {
        let h = hash_predicate(path, value);
        self.positions_matching(h)
    }

    /// Candidate positions for an existence predicate over `path`: the
    /// path is normalized and its path-only hash probed, in ascending
    /// order. Every position actually holding the path — whatever value
    /// is bound there, primitive, object or array — is among them:
    /// [`lemma_no_false_negative_defined`] and
    /// [`lemma_candidates_defined_hits`] prove the signature answers
    /// membership for any such position, and the clauses below then place
    /// it in the result.
    #[verifier::loop_isolation(false)]
    pub fn candidates_defined(&self, path: &str) -> (r: Vec<usize>)
        requires
            self.wf(),
        ensures
            forall|j: int|
                0 <= j < r@.len() ==> (#[trigger] r@[j]) < self.spec_signatures().len()
                    && self.sig_may(r@[j] as int, hash_path_only_spec(norm(path@))),
            forall|d: int|
                0 <= d < self.spec_signatures().len() && self.sig_may(
                    d,
                    hash_path_only_spec(norm(path@)),
                ) ==> r@.contains(d as usize),
            forall|j1: int, j2: int| 0 <= j1 < j2 < r@.len() ==> r@[j1] < r@[j2],
    {
        let normalized = crate::path::normalize_query_path(path);
        let h = hash_path_only(normalized.as_str());
        self.positions_matching(h)
    }

    /// The positions whose signature answers membership for `h`, in
    /// ascending order.
    #[verifier::loop_isolation(false)]
    fn positions_matching(&self, h: u64) -> (r: Vec<usize>)
        requires
            self.wf(),
        ensures
            forall|j: int|
                0 <= j < r@.len() ==> (#[trigger] r@[j]) < self.spec_signatures().len()
                    && self.sig_may(r@[j] as int, h),
            forall|d: int|
                0 <= d < self.spec_signatures().len() && self.sig_may(d, h) ==> r@.contains(
                    d as usize,
                ),
            forall|j1: int, j2: int| 0 <= j1 < j2 < r@.len() ==> r@[j1] < r@[j2],
    {
        let mut out: Vec<usize> = Vec::new();
        let mut d: usize = 0;
        while d < self.signatures.len()
            invariant
                d <= self.signatures.len(),
                forall|j: int|
                    0 <= j < out@.len() ==> (#[trigger] out@[j]) < d && self.sig_may(
                        out@[j] as int,
                        h,
                    ),
                forall|d2: int|
                    0 <= d2 < d && self.sig_may(d2, h) ==> out@.contains(d2 as usize),
                forall|j1: int, j2: int| 0 <= j1 < j2 < out@.len() ==> out@[j1] < out@[j2],
            decreases self.signatures.len() - d,
        {
            let ghost before = out@;
            let sig = &self.signatures[d];
            if sig.contains(h) {
                out.push(d);
            }
            proof {
                assert forall|d2: int|
                    0 <= d2 < d + 1 && self.sig_may(d2, h) implies out@.contains(d2 as usize) by {
                    if d2 < d {
                        lemma_seq_contains_after_push(before, d, d2 as usize);
                    } else {
                        assert(out@[out@.len() - 1] == d2 as usize);
                    }
                }
            }
            d += 1;
        }
        out
    }

    /// The identifier bound to a position.
    pub fn doc_id(&self, idx: usize) -> (r: &str)
        requires
            idx < self.spec_doc_ids().len(),
        ensures
            r@ == self.spec_doc_ids()[idx as int]@,
    {
        self.doc_ids[idx].as_str()
    }

    /// The number of indexed documents.
    pub fn len(&self) -> (r: usize)
        ensures
            r == self.spec_signatures().len(),
    {
        self.signatures.len()
    }

    /// The summed storage size of all signatures, in bytes; saturates at
    /// the machine's limit.
    #[verifier::loop_isolation(false)]
    pub fn size_bytes(&self) -> (r: usize)
        ensures
            r == spec_bytes_total(self.spec_signatures().take(self.spec_signatures().len() as int)),
    {
        let mut total: usize = 0;
        let mut i: usize = 0;
        while i < self.signatures.len()
            invariant
                i <= self.signatures.len(),
                total == spec_bytes_total(self.spec_signatures().take(i as int)),
            decreases self.signatures.len() - i,
        {
            proof {
                assert(self.spec_signatures().take(i + 1).drop_last() =~= self.spec_signatures()
                    .take(i as int));
            }
            let sz = self.signatures[i].size_bytes();
            total = saturating_add_usize(total, sz);
            i += 1;
        }
        total
    }
}

/// The byte total of a sequence of signatures, saturating at `usize::MAX`
/// step by step.
pub open spec fn spec_bytes_total(sigs: Seq<BloomFilter>) -> usize
    decreases sigs.len(),
{
    if sigs.len() == 0 {
        0
    } else {
        spec_saturating_add(
            spec_bytes_total(sigs.drop_last()),
            (sigs.last().spec_bits().len() / 8) as usize,
        )
    }
}

/// Addition capped at `usize::MAX`.
pub open spec fn spec_saturating_add(a: usize, b: usize) -> usize {
    if a + b > usize::MAX {
        usize::MAX
    } else {
        (a + b) as usize
    }
}

/// Addition capped at `usize::MAX`.
fn saturating_add_usize(a: usize, b: usize) -> (r: usize)
    ensures
        r == spec_saturating_add(a, b),
{
    a.saturating_add(b)
}

/// Zero false negatives, equality form: when an index covers a document
/// collection, document `d`'s tree yields the observation `(p, v)` with a
/// primitive `v`, and a query path `q` normalizes to `p`, then position
/// `d`'s signature answers membership for the query hash — so
/// `candidates_eq(q, v)` returns `d`.
pub proof fn lemma_no_false_negative_eq(
    idx: Holodex,
    docs: Seq<(String, JsonValue)>,
    d: int,
    o: (Seq<char>, ValModel),
    q: Seq<char>,
)
    requires
        idx.covers(docs),
        0 <= d < docs.len(),
        observations(docs[d].1@, Seq::empty()).contains(o),
        is_primitive(o.1),
        norm(q) == o.0,
    ensures
        idx.sig_may(d, hash_pair_spec(norm(q), o.1)),
{
    assert(filter_covers(idx.spec_signatures()[d], docs[d].1@));
}

/// Zero false negatives, existence form: when an index covers a document
/// collection, document `d`'s tree yields any observation at path `p`,
/// and a query path `q` normalizes to `p`, then position `d`'s signature
/// answers membership for the path-only hash — so `candidates_defined(q)`
/// returns `d`.
pub proof fn lemma_no_false_negative_defined(
    idx: Holodex,
    docs: Seq<(String, JsonValue)>,
    d: int,
    o: (Seq<char>, ValModel),
    q: Seq<char>,
)
    requires
        idx.covers(docs),
        0 <= d < docs.len(),
        observations(docs[d].1@, Seq::empty()).contains(o),
        norm(q) == o.0,
    ensures
        idx.sig_may(d, hash_path_only_spec(norm(q))),
{
    assert(filter_covers(idx.spec_signatures()[d], docs[d].1@));
}

/// The equality guarantee in query terms: for a document with plain field
/// names, any query path that normalizes like the emitted path meets the
/// signature, because emitted paths are their own normalized form.
pub proof fn lemma_candidates_eq_hits(
    idx: Holodex,
    docs: Seq<(String, JsonValue)>,
    d: int,
    o: (Seq<char>, ValModel),
    q: Seq<char>,
)
    requires
        idx.covers(docs),
        0 <= d < docs.len(),
        crate::extract::plain_keys(docs[d].1@),
        observations(docs[d].1@, Seq::empty()).contains(o),
        is_primitive(o.1),
        norm(q) == norm(o.0),
    ensures
        idx.sig_may(d, hash_pair_spec(norm(q), o.1)),
{
    crate::path::lemma_emitted_ok_empty();
    crate::extract::lemma_observation_paths_emitted(docs[d].1@, Seq::empty(), o);
    lemma_no_false_negative_eq(idx, docs, d, o, q);
}

/// The existence guarantee in query terms: for a document with plain
/// field names, any query path that normalizes like the emitted path
/// meets the signature's path-only probe.
pub proof fn lemma_candidates_defined_hits(
    idx: Holodex,
    docs: Seq<(String, JsonValue)>,
    d: int,
    o: (Seq<char>, ValModel),
    q: Seq<char>,
)
    requires
        idx.covers(docs),
        0 <= d < docs.len(),
        crate::extract::plain_keys(docs[d].1@),
        observations(docs[d].1@, Seq::empty()).contains(o),
        norm(q) == norm(o.0),
    ensures
        idx.sig_may(d, hash_path_only_spec(norm(q))),
{
    crate::path::lemma_emitted_ok_empty();
    crate::extract::lemma_observation_paths_emitted(docs[d].1@, Seq::empty(), o);
    lemma_no_false_negative_defined(idx, docs, d, o, q);
}

/// Object field order is semantically irrelevant: two documents with the
/// same observations — same set and same count, as for any permutation of
/// object entries at any depth — receive signatures with identical bits
/// and probe counts, so every membership query answers the same on both.
pub proof fn lemma_fingerprint_order_irrelevant(
    f1: BloomFilter,
    f2: BloomFilter,
    m1: ValModel,
    m2: ValModel,
)
    requires
        fingerprint_exact(f1, m1),
        fingerprint_exact(f2, m2),
        observations(m1, Seq::empty()).len() == observations(m2, Seq::empty()).len(),
        forall|o: (Seq<char>, ValModel)|
            observations(m1, Seq::empty()).contains(o) <==> #[trigger] observations(
                m2,
                Seq::empty(),
            ).contains(o),
    ensures
        f1.spec_bits() == f2.spec_bits(),
        f1.spec_num_hashes() == f2.spec_num_hashes(),
        forall|h: u64| f1.may_contain(h) == f2.may_contain(h),
{
    let obs1 = observations(m1, Seq::empty());
    let obs2 = observations(m2, Seq::empty());
    let mbits = f1.spec_bits().len() as int;
    let kk = f1.spec_num_hashes();
    assert(f2.spec_bits().len() == mbits);
    assert(f2.spec_num_hashes() == kk);
    assert forall|j: int| 0 <= j < mbits implies f1.spec_bits()[j] == f2.spec_bits()[j] by {
        if obs_sets_bit(obs1, obs1.len() as int, j, mbits, kk) {
            lemma_obs_sets_bit_transfer(obs1, obs2, j, mbits, kk);
        }
        if obs_sets_bit(obs2, obs2.len() as int, j, mbits, kk) {
            lemma_obs_sets_bit_transfer(obs2, obs1, j, mbits, kk);
        }
    }
    assert(f1.spec_bits() =~= f2.spec_bits());
    assert forall|h: u64| f1.may_contain(h) == f2.may_contain(h) by {
        assert forall|p: int|
            0 <= p < kk implies f1.spec_bits()[BloomFilter::probe(h, p, mbits)]
            == f2.spec_bits()[BloomFilter::probe(h, p, mbits)] by {
            assert(0 <= BloomFilter::probe(h, p, mbits) < mbits);
        }
    }
}

/// A bit set by some observation of one sequence is set by the matching
/// observation of any sequence that contains the same observations.
proof fn lemma_obs_sets_bit_transfer(
    obs1: Seq<(Seq<char>, ValModel)>,
    obs2: Seq<(Seq<char>, ValModel)>,
    j: int,
    m: int,
    k: int,
)
    requires
        obs_sets_bit(obs1, obs1.len() as int, j, m, k),
        forall|o: (Seq<char>, ValModel)| obs1.contains(o) ==> #[trigger] obs2.contains(o),
    ensures
        obs_sets_bit(obs2, obs2.len() as int, j, m, k),
{
    let (oi, p) = choose|oi: int, p: int|
        #![trigger BloomFilter::probe(hash_path_only_spec(obs1[oi].0), p, m)]
        #![trigger BloomFilter::probe(hash_pair_spec(obs1[oi].0, obs1[oi].1), p, m)]
        0 <= oi < obs1.len() && 0 <= p < k && (j == BloomFilter::probe(
            hash_path_only_spec(obs1[oi].0),
            p,
            m,
        ) || (is_primitive(obs1[oi].1) && j == BloomFilter::probe(
            hash_pair_spec(obs1[oi].0, obs1[oi].1),
            p,
            m,
        )));
    let o = obs1[oi];
    assert(obs1.contains(o));
    assert(obs2.contains(o));
    let oi2 = choose|oi2: int| 0 <= oi2 < obs2.len() && obs2[oi2] == o;
    if j == BloomFilter::probe(hash_path_only_spec(o.0), p, m) {
        assert(j == BloomFilter::probe(hash_path_only_spec(obs2[oi2].0), p, m));
    } else {
        assert(j == BloomFilter::probe(hash_pair_spec(obs2[oi2].0, obs2[oi2].1), p, m));
    }
}

} // verus!
