//! Embedding batching and correlation. A batch is a run of consecutive
//! chunks; the endpoint answers with one vector per input position.
//! Correlation is strictly positional: response entry `i` pairs with
//! batch chunk `i`, and an index for which the response holds no usable
//! entry is dropped rather than realigned, so a record can never carry
//! another chunk's vector. The vectors themselves are opaque here; the
//! caller supplies whatever the endpoint decoded, one optional entry per
//! position.

use vstd::prelude::*;

use crate::text::string_views;

verus! {

/// A chunk text paired with the embedding vector returned for it.
pub struct EmbeddingRecord<V> {
    pub text: String,
    pub embedding: V,
}

/// The (text, vector) pairs a record sequence carries.
pub open spec fn record_pairs<V>(rs: Seq<EmbeddingRecord<V>>) -> Seq<(Seq<char>, V)> {
    Seq::new(rs.len(), |i: int| (rs[i].text@, rs[i].embedding))
}

/// Positional correlation from position `i` on: position `i` contributes
/// the pair `(texts[i], v)` when the response holds `Some(v)` there, and
/// nothing otherwise; positions past either sequence contribute nothing.
pub open spec fn correlate_scan<V>(
    texts: Seq<Seq<char>>,
    entries: Seq<Option<V>>,
    i: int,
) -> Seq<(Seq<char>, V)>
    decreases texts.len() - i,
{
    if i < 0 || i >= texts.len() || i >= entries.len() {
        Seq::empty()
    } else {
        (match entries[i] {
            Option::Some(v) => seq![(texts[i], v)],
            Option::None => Seq::empty(),
        }) + correlate_scan(texts, entries, i + 1)
    }
}

/// All positionally correlated pairs of a batch and its response.
pub open spec fn correlated<V>(texts: Seq<Seq<char>>, entries: Seq<Option<V>>) -> Seq<
    (Seq<char>, V),
> {
    correlate_scan(texts, entries, 0)
}

/// Builds the embedding records of one batch: entry `i` of the decoded
/// response is paired with batch chunk `i`; a position the response does
/// not answer (or answers with something unusable, decoded to `None`)
/// yields no record. The records keep batch order, and there are never
/// more of them than chunks or than response entries.
#[verifier::loop_isolation(false)]
pub fn correlate<V>(texts: &Vec<String>, entries: Vec<Option<V>>) -> (records: Vec<
    EmbeddingRecord<V>,
>)
    ensures
        record_pairs(records@) == correlated(string_views(texts@), entries@),
        records@.len() <= texts@.len(),
        records@.len() <= entries@.len(),
{
    let ghost full = entries@;
    let ghost tviews = string_views(texts@);
    let mut rest = entries;
    let mut records: Vec<EmbeddingRecord<V>> = Vec::new();
    let mut i: usize = 0;
    while i < texts.len() && rest.len() > 0
        invariant
            0 <= i <= texts@.len(),
            i <= full.len(),
            rest@ == full.skip(i as int),
            records@.len() <= i,
            record_pairs(records@) + correlate_scan(tviews, full, i as int) == correlated(
                tviews,
                full,
            ),
        decreases texts@.len() - i,
    {
        proof {
            assert(full.skip(i as int)[0] == full[i as int]);
        }
        let e = rest.remove(0);
        proof {
            assert(rest@ =~= full.skip(i + 1));
        }
        match e {
            Option::Some(v) => {
                let text_ref: &String = &texts[i];
                let ghost old_records = records@;
                records.push(EmbeddingRecord { text: text_ref.clone(), embedding: v });
                proof {
                    assert(record_pairs(records@) =~= record_pairs(old_records).push(
                        (tviews[i as int], v),
                    ));
                    assert(record_pairs(old_records).push((tviews[i as int], v))
                        + correlate_scan(tviews, full, i + 1) =~= record_pairs(old_records) + (
                    seq![(tviews[i as int], v)] + correlate_scan(tviews, full, i + 1)));
                }
            },
            Option::None => {
                proof {
                    assert(Seq::<(Seq<char>, V)>::empty() + correlate_scan(tviews, full, i + 1)
                        =~= correlate_scan(tviews, full, i + 1));
                }
            },
        }
        i = i + 1;
    }
    proof {
        assert(correlate_scan(tviews, full, i as int) =~= Seq::<(Seq<char>, V)>::empty());
        assert(record_pairs(records@) =~= record_pairs(records@) + Seq::<(
            Seq<char>,
            V,
        )>::empty());
    }
    records
}

/// Selects the batch of up to `batch_size` consecutive chunks starting at
/// `start_idx`, exactly the slice the embedding request will carry.
#[verifier::loop_isolation(false)]
pub fn select_batch(chunks: &Vec<String>, start_idx: usize, batch_size: usize) -> (batch: Vec<
    String,
>)
    requires
        start_idx <= chunks@.len(),
    ensures
        string_views(batch@) == string_views(chunks@).subrange(
            start_idx as int,
            if start_idx + batch_size <= chunks@.len() {
                start_idx + batch_size
            } else {
                chunks@.len() as int
            },
        ),
{
    let end: usize = if batch_size <= chunks.len() - start_idx {
        start_idx + batch_size
    } else {
        chunks.len()
    };
    let mut batch: Vec<String> = Vec::new();
    let mut i: usize = start_idx;
    while i < end
        invariant
            start_idx <= i <= end <= chunks@.len(),
            string_views(batch@) == string_views(chunks@).subrange(start_idx as int, i as int),
        decreases end - i,
    {
        let c: &String = &chunks[i];
        batch.push(c.clone());
        proof {
            assert(string_views(batch@) =~= string_views(chunks@).subrange(
                start_idx as int,
                i + 1,
            ));
        }
        i = i + 1;
    }
    batch
}

} // verus!
