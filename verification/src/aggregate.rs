use vstd::prelude::*;

use crate::metadata::{FieldKey, Metadata, MetaView};
use crate::version::Version;

verus! {

/// The derived, read-only summary of a batch of completed records: the
/// deduplicated values of each tracked field, and how many records carry
/// each distinct version.
pub struct AggregateView {
    pub producers: Vec<String>,
    pub creators: Vec<String>,
    pub authors: Vec<String>,
    pub creator_tools: Vec<String>,
    pub version_counts: Vec<(Version, u64)>,
}

/// The value a record holds for one of the four tracked fields.
pub open spec fn field_of(m: MetaView, f: FieldKey) -> Option<Seq<char>> {
    match f {
        FieldKey::Producer => m.producer,
        FieldKey::Creator => m.creator,
        FieldKey::Author => m.author,
        FieldKey::CreatorTool => m.creator_tool,
        _ => None,
    }
}

/// The set of string values held by a vector's elements.
pub open spec fn values_of(vs: Seq<String>) -> Set<Seq<char>> {
    Set::new(|x: Seq<char>| exists|i: int| 0 <= i < vs.len() && vs[i]@ == x)
}

/// No two elements hold the same string value.
pub open spec fn distinct_views(vs: Seq<String>) -> bool {
    forall|i: int, j: int| 0 <= i < j < vs.len() ==> vs[i]@ != vs[j]@
}

/// Every non-absent value of field `f` across the records.
pub open spec fn collected(ms: Seq<Metadata>, f: FieldKey) -> Set<Seq<char>> {
    Set::new(
        |x: Seq<char>| exists|i: int| 0 <= i < ms.len() && field_of(#[trigger] ms[i]@, f) == Some(
            x,
        ),
    )
}

/// How many records carry exactly version `v`.
pub open spec fn count_version(ms: Seq<Metadata>, v: Version) -> nat
    decreases ms.len(),
{
    if ms.len() == 0 {
        0
    } else {
        count_version(ms.drop_last(), v) + (if ms.last()@.pdf_version == v {
            1nat
        } else {
            0nat
        })
    }
}

/// A version can occur at most once per record.
proof fn lemma_count_version_le(ms: Seq<Metadata>, v: Version)
    ensures
        count_version(ms, v) <= ms.len(),
    decreases ms.len(),
{
    if ms.len() > 0 {
        lemma_count_version_le(ms.drop_last(), v);
    }
}

/// The table pairs each version occurring in `ms` with its exact frequency:
/// keys are distinct, counts are exact, and every occurring version appears.
pub open spec fn version_table_exact(counts: Seq<(Version, u64)>, ms: Seq<Metadata>) -> bool {
    &&& forall|k1: int, k2: int|
        0 <= k1 < k2 < counts.len() ==> (#[trigger] counts[k1]).0 != (#[trigger] counts[k2]).0
    &&& forall|k: int|
        0 <= k < counts.len() ==> (#[trigger] counts[k]).1 as nat == count_version(
            ms,
            counts[k].0,
        )
    &&& forall|v: Version|
        count_version(ms, v) > 0 <==> exists|k: int|
            0 <= k < counts.len() && (#[trigger] counts[k]).0 == v
}

/// Insert a value into a deduplicated value vector: when some element
/// already holds the same string, nothing changes; otherwise a copy of the
/// value is appended.
pub fn update_hashset(set: &mut Vec<String>, v: &String)
    ensures
        values_of(final(set)@) == values_of(old(set)@).insert(v@),
        distinct_views(old(set)@) ==> distinct_views(final(set)@),
        (exists|i: int| 0 <= i < old(set)@.len() && old(set)@[i]@ == v@) ==> final(set)@ == old(
            set,
        )@,
        !(exists|i: int| 0 <= i < old(set)@.len() && old(set)@[i]@ == v@) ==> final(set)@ == old(
            set,
        )@.push(*v),
{
    let n = set.len();
    let mut i: usize = 0;
    while i < n
        invariant
            0 <= i <= n,
            n == set@.len(),
            forall|j: int| 0 <= j < i ==> set@[j]@ != v@,
        decreases n - i,
    {
        if set[i].eq(v) {
            proof {
                assert(set@[i as int]@ == v@);
                assert(values_of(set@).contains(v@));
                assert(values_of(set@) =~= values_of(set@).insert(v@));
            }
            return ;
        }
        i = i + 1;
    }
    let ghost s0 = set@;
    set.push(v.clone());
    proof {
        assert(set@.len() == s0.len() + 1 && set@[s0.len() as int]@ == v@);
        assert forall|j: int| 0 <= j < s0.len() implies set@[j] == s0[j] by {}
        assert(set@ =~= s0.push(*v));
        assert(values_of(set@) =~= values_of(s0).insert(v@)) by {
            assert forall|x: Seq<char>| values_of(s0).insert(v@).contains(x) implies values_of(
                set@,
            ).contains(x) by {
                if x == v@ {
                    assert(set@[s0.len() as int]@ == x);
                } else {
                    let w = choose|i: int| 0 <= i < s0.len() && s0[i]@ == x;
                    assert(set@[w]@ == x);
                }
            }
        }
    }
}

/// Whether the table already has an entry for `v`.
fn table_has_version(counts: &Vec<(Version, u64)>, v: Version) -> (r: bool)
    ensures
        r == exists|k: int| 0 <= k < counts@.len() && (#[trigger] counts@[k]).0 == v,
{
    let n = counts.len();
    let mut k: usize = 0;
    while k < n
        invariant
            0 <= k <= n,
            n == counts@.len(),
            forall|j: int| 0 <= j < k ==> (#[trigger] counts@[j]).0 != v,
        decreases n - k,
    {
        if counts[k].0 == v {
            return true;
        }
        k = k + 1;
    }
    false
}

/// Count the records of `metas` that carry exactly version `v`.
fn count_records_with(metas: &Vec<Metadata>, v: Version) -> (r: u64)
    ensures
        r as nat == count_version(metas@, v),
{
    let n = metas.len();
    let mut c: u64 = 0;
    let mut j: usize = 0;
    while j < n
        invariant
            0 <= j <= n,
            n == metas@.len(),
            c as nat == count_version(metas@.subrange(0, j as int), v),
            c <= j,
        decreases n - j,
    {
        proof {
            assert(metas@.subrange(0, j + 1).drop_last() =~= metas@.subrange(0, j as int));
            assert(metas@.subrange(0, j + 1).last() == metas@[j as int]);
        }
        if metas[j].pdf_version == v {
            c = c + 1;
        }
        j = j + 1;
    }
    proof {
        assert(metas@.subrange(0, n as int) =~= metas@);
    }
    c
}

/// Build the aggregate view of a batch of completed records: for each of
/// the four tracked fields the set of distinct non-absent values, and the
/// exact frequency of each distinct version. Pure and order-independent:
/// everything is derived from the records alone.
pub fn aggregate(metas: &Vec<Metadata>) -> (r: AggregateView)
    ensures
        distinct_views(r.producers@),
        distinct_views(r.creators@),
        distinct_views(r.authors@),
        distinct_views(r.creator_tools@),
        values_of(r.producers@) == collected(metas@, FieldKey::Producer),
        values_of(r.creators@) == collected(metas@, FieldKey::Creator),
        values_of(r.authors@) == collected(metas@, FieldKey::Author),
        values_of(r.creator_tools@) == collected(metas@, FieldKey::CreatorTool),
        version_table_exact(r.version_counts@, metas@),
{
    let n = metas.len();
    let mut producers: Vec<String> = Vec::new();
    let mut creators: Vec<String> = Vec::new();
    let mut authors: Vec<String> = Vec::new();
    let mut creator_tools: Vec<String> = Vec::new();
    let mut version_counts: Vec<(Version, u64)> = Vec::new();
    let mut i: usize = 0;
    while i < n
        invariant
            0 <= i <= n,
            n == metas@.len(),
            distinct_views(producers@),
            distinct_views(creators@),
            distinct_views(authors@),
            distinct_views(creator_tools@),
            values_of(producers@) == collected(metas@.subrange(0, i as int), FieldKey::Producer),
            values_of(creators@) == collected(metas@.subrange(0, i as int), FieldKey::Creator),
            values_of(authors@) == collected(metas@.subrange(0, i as int), FieldKey::Author),
            values_of(creator_tools@) == collected(
                metas@.subrange(0, i as int),
                FieldKey::CreatorTool,
            ),
            forall|k1: int, k2: int|
                0 <= k1 < k2 < version_counts@.len() ==> (#[trigger] version_counts@[k1]).0 != (
                #[trigger] version_counts@[k2]).0,
            forall|k: int|
                0 <= k < version_counts@.len() ==> (#[trigger] version_counts@[k]).1 as nat
                    == count_version(metas@, version_counts@[k].0) && version_counts@[k].1 > 0,
            forall|j: int|
                0 <= j < i ==> exists|k: int|
                    0 <= k < version_counts@.len() && (#[trigger] version_counts@[k]).0 == (
                    #[trigger] metas@[j])@.pdf_version,
        decreases n - i,
    {
        let ghost pre = metas@.subrange(0, i as int);
        let ghost post = metas@.subrange(0, i + 1);
        proof {
            assert(post.drop_last() =~= pre);
            assert(post.last() == metas@[i as int]);
        }
        let m = &metas[i];
        if let Some(val) = &m.producer {
            update_hashset(&mut producers, val);
        }
        proof {
            assert(values_of(producers@) =~= collected(post, FieldKey::Producer)) by {
                lemma_collected_step(metas@, i as int, FieldKey::Producer, values_of(producers@));
            }
        }
        if let Some(val) = &m.creator {
            update_hashset(&mut creators, val);
        }
        proof {
            assert(values_of(creators@) =~= collected(post, FieldKey::Creator)) by {
                lemma_collected_step(metas@, i as int, FieldKey::Creator, values_of(creators@));
            }
        }
        if let Some(val) = &m.author {
            update_hashset(&mut authors, val);
        }
        proof {
            assert(values_of(authors@) =~= collected(post, FieldKey::Author)) by {
                lemma_collected_step(metas@, i as int, FieldKey::Author, values_of(authors@));
            }
        }
        if let Some(val) = &m.creator_tool {
            update_hashset(&mut creator_tools, val);
        }
        proof {
            assert(values_of(creator_tools@) =~= collected(post, FieldKey::CreatorTool)) by {
                lemma_collected_step(
                    metas@,
                    i as int,
                    FieldKey::CreatorTool,
                    values_of(creator_tools@),
                );
            }
        }
        let ver = m.pdf_version;
        let ghost vc0 = version_counts@;
        let had = table_has_version(&version_counts, ver);
        if !had {
            let c = count_records_with(metas, ver);
            proof {
                assert(count_version(metas@, ver) > 0) by {
                    lemma_count_version_occurs(metas@, i as int);
                }
            }
            version_counts.push((ver, c));
            proof {
                assert(version_counts@[vc0.len() as int].0 == ver);
            }
        }
        proof {
            assert forall|j: int| 0 <= j < i + 1 implies exists|k: int|
                0 <= k < version_counts@.len() && (#[trigger] version_counts@[k]).0 == (
                #[trigger] metas@[j])@.pdf_version by {
                if j < i {
                    let k = choose|k: int|
                        0 <= k < vc0.len() && (#[trigger] vc0[k]).0 == metas@[j]@.pdf_version;
                    assert(version_counts@[k].0 == metas@[j]@.pdf_version);
                } else if had {
                    let k = choose|k: int|
                        0 <= k < vc0.len() && (#[trigger] vc0[k]).0 == ver;
                    assert(version_counts@[k].0 == metas@[j]@.pdf_version);
                } else {
                    assert(version_counts@[vc0.len() as int].0 == metas@[j]@.pdf_version);
                }
            }
        }
        i = i + 1;
    }
    proof {
        assert(metas@.subrange(0, n as int) =~= metas@);
        assert forall|v: Version| count_version(metas@, v) > 0 implies exists|k: int|
            0 <= k < version_counts@.len() && (#[trigger] version_counts@[k]).0 == v by {
            let j = lemma_count_version_witness(metas@, v);
            assert(metas@[j]@.pdf_version == v);
        }
        assert forall|v: Version|
            (exists|k: int| 0 <= k < version_counts@.len() && (#[trigger] version_counts@[k]).0
                == v) implies count_version(metas@, v) > 0 by {
            let k = choose|k: int|
                0 <= k < version_counts@.len() && (#[trigger] version_counts@[k]).0 == v;
            assert(version_counts@[k].1 as nat == count_version(metas@, v));
        }
    }
    AggregateView { producers, creators, authors, creator_tools, version_counts }
}

/// Adding one record extends a field's collected set by exactly its own
/// value of that field (when present).
proof fn lemma_collected_step(ms: Seq<Metadata>, i: int, f: FieldKey, have: Set<Seq<char>>)
    requires
        0 <= i < ms.len(),
        field_of(ms[i]@, f) is Some ==> have == collected(ms.subrange(0, i), f).insert(
            field_of(ms[i]@, f)->0,
        ),
        field_of(ms[i]@, f) is None ==> have == collected(ms.subrange(0, i), f),
    ensures
        have =~= collected(ms.subrange(0, i + 1), f),
{
    let pre = ms.subrange(0, i);
    let post = ms.subrange(0, i + 1);
    assert forall|x: Seq<char>| collected(post, f).contains(x) implies have.contains(x) by {
        let w = choose|w: int| 0 <= w < post.len() && field_of(post[w]@, f) == Some(x);
        if w < i {
            assert(pre[w]@ == post[w]@);
            assert(collected(pre, f).contains(x));
        } else {
            assert(post[w]@ == ms[i]@);
        }
    }
    assert forall|x: Seq<char>| have.contains(x) implies collected(post, f).contains(x) by {
        if collected(pre, f).contains(x) {
            let w = choose|w: int| 0 <= w < pre.len() && field_of(pre[w]@, f) == Some(x);
            assert(post[w]@ == pre[w]@);
        } else {
            assert(field_of(ms[i]@, f) == Some(x));
            assert(post[i as int]@ == ms[i]@);
        }
    }
}

/// A version counted positively occurs in some record, and conversely.
proof fn lemma_count_version_witness(ms: Seq<Metadata>, v: Version) -> (j: int)
    requires
        count_version(ms, v) > 0,
    ensures
        0 <= j < ms.len(),
        ms[j]@.pdf_version == v,
    decreases ms.len(),
{
    if ms.last()@.pdf_version == v {
        ms.len() - 1
    } else {
        let j = lemma_count_version_witness(ms.drop_last(), v);
        assert(ms.drop_last()[j] == ms[j]);
        j
    }
}

/// The count of the version of record `i` is positive.
proof fn lemma_count_version_occurs(ms: Seq<Metadata>, i: int)
    requires
        0 <= i < ms.len(),
    ensures
        count_version(ms, ms[i]@.pdf_version) > 0,
    decreases ms.len(),
{
    if i == ms.len() - 1 {
    } else {
        lemma_count_version_occurs(ms.drop_last(), i);
        assert(ms.drop_last()[i] == ms[i]);
    }
}

} // verus!
