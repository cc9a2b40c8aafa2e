//! Ephemeral vector-index session: a collection named after the creation
//! time in whole seconds, with a fixed vector dimension and distance
//! metric, plus the assignment of sequential point ids to embedding
//! records before they are upserted. The session is caller-owned; the
//! network calls that create the collection and upsert the points happen
//! outside this crate against the values built here.

use vstd::prelude::*;

use crate::embed::EmbeddingRecord;
use crate::text::{chars_to_string, str_to_chars};

verus! {

/// Vector dimensionality every session is created with.
pub const VECTOR_DIMENSION: u64 = 768;

/// The digit character for a value below ten.
pub open spec fn digit_char(d: nat) -> char {
    if d == 0 {
        '0'
    } else if d == 1 {
        '1'
    } else if d == 2 {
        '2'
    } else if d == 3 {
        '3'
    } else if d == 4 {
        '4'
    } else if d == 5 {
        '5'
    } else if d == 6 {
        '6'
    } else if d == 7 {
        '7'
    } else if d == 8 {
        '8'
    } else {
        '9'
    }
}

/// The decimal digits of `n`, most significant first, without leading
/// zeros (a single zero for zero).
pub open spec fn dec_digits(n: nat) -> Seq<char>
    decreases n,
{
    if n < 10 {
        seq![digit_char(n)]
    } else {
        dec_digits(n / 10).push(digit_char(n % 10))
    }
}

pub proof fn lemma_dec_digits_len(n: nat)
    ensures
        dec_digits(n).len() >= 1,
    decreases n,
{
    if n >= 10 {
        lemma_dec_digits_len(n / 10);
    }
}

/// Distinct numbers have distinct decimal representations.
pub proof fn lemma_dec_digits_injective(a: nat, b: nat)
    requires
        dec_digits(a) == dec_digits(b),
    ensures
        a == b,
    decreases a,
{
    lemma_dec_digits_len(a);
    lemma_dec_digits_len(b);
    if a < 10 && b < 10 {
        assert(dec_digits(a)[0] == digit_char(a));
        assert(dec_digits(b)[0] == digit_char(b));
    } else if a < 10 {
        assert(dec_digits(b).len() >= 2) by {
            lemma_dec_digits_len(b / 10);
        }
    } else if b < 10 {
        assert(dec_digits(a).len() >= 2) by {
            lemma_dec_digits_len(a / 10);
        }
    } else {
        assert(dec_digits(a).last() == digit_char(a % 10));
        assert(dec_digits(b).last() == digit_char(b % 10));
        assert(a % 10 == b % 10);
        assert(dec_digits(a).drop_last() =~= dec_digits(a / 10));
        assert(dec_digits(b).drop_last() =~= dec_digits(b / 10));
        lemma_dec_digits_injective(a / 10, b / 10);
    }
}

/// Writes `n` in decimal.
pub fn u64_to_dec(n: u64) -> (r: Vec<char>)
    ensures
        r@ == dec_digits(n as nat),
{
    let mut rev: Vec<char> = Vec::new();
    let mut m: u64 = n;
    while m >= 10
        invariant
            dec_digits(n as nat) == dec_digits(m as nat) + rev@.reverse(),
        decreases m,
    {
        let d = digit_of(m % 10);
        let ghost old_rev = rev@;
        rev.push(d);
        proof {
            assert(rev@.reverse() =~= seq![digit_char((m % 10) as nat)] + old_rev.reverse());
            assert(dec_digits((m / 10) as nat) + rev@.reverse() =~= dec_digits(m as nat)
                + old_rev.reverse());
        }
        m = m / 10;
    }
    let d = digit_of(m);
    let ghost old_rev = rev@;
    rev.push(d);
    proof {
        assert(rev@.reverse() =~= seq![digit_char(m as nat)] + old_rev.reverse());
        assert(dec_digits(m as nat) =~= seq![digit_char(m as nat)]);
        assert(dec_digits(n as nat) =~= rev@.reverse());
    }
    let mut r: Vec<char> = Vec::new();
    let mut i: usize = rev.len();
    while i > 0
        invariant
            0 <= i <= rev@.len(),
            r@ == rev@.reverse().take(rev@.len() - i),
        decreases i,
    {
        i = i - 1;
        r.push(rev[i]);
        proof {
            assert(r@ =~= rev@.reverse().take(rev@.len() - i));
        }
    }
    proof {
        assert(rev@.reverse().take(rev@.len() as int) =~= rev@.reverse());
    }
    r
}

fn digit_of(d: u64) -> (c: char)
    requires
        d < 10,
    ensures
        c == digit_char(d as nat),
{
    if d == 0 {
        '0'
    } else if d == 1 {
        '1'
    } else if d == 2 {
        '2'
    } else if d == 3 {
        '3'
    } else if d == 4 {
        '4'
    } else if d == 5 {
        '5'
    } else if d == 6 {
        '6'
    } else if d == 7 {
        '7'
    } else if d == 8 {
        '8'
    } else {
        '9'
    }
}

/// The collection name derived from a creation time in seconds.
pub open spec fn collection_name_spec(epoch_secs: u64) -> Seq<char> {
    "temp_"@ + dec_digits(epoch_secs as nat)
}

/// Builds the time-derived collection name.
pub fn collection_name_for(epoch_secs: u64) -> (r: String)
    ensures
        r@ == collection_name_spec(epoch_secs),
{
    proof {
        reveal_strlit("temp_");
    }
    let mut v = str_to_chars("temp_");
    let mut digits = u64_to_dec(epoch_secs);
    v.append(&mut digits);
    chars_to_string(&v)
}

/// The naming scheme collides exactly on equal creation seconds: two
/// sessions created within the same clock second share one collection id
/// (the defined collision case the backing store reports as an error),
/// and sessions from distinct seconds never do.
pub proof fn lemma_collection_name_collision(a: u64, b: u64)
    ensures
        (collection_name_spec(a) == collection_name_spec(b)) <==> a == b,
{
    if collection_name_spec(a) == collection_name_spec(b) {
        let p = "temp_"@;
        assert(dec_digits(a as nat) =~= collection_name_spec(a).skip(p.len() as int));
        assert(dec_digits(b as nat) =~= collection_name_spec(b).skip(p.len() as int));
        lemma_dec_digits_injective(a as nat, b as nat);
    }
}

/// An ephemeral, caller-owned vector collection: its time-derived name,
/// vector dimensionality and distance metric.
pub struct IndexSession {
    pub collection_id: String,
    pub vector_dimension: u64,
    pub distance_metric: String,
}

impl IndexSession {
    /// Opens a session for the collection named after `epoch_secs`, with
    /// the fixed dimensionality and cosine distance.
    pub fn new(epoch_secs: u64) -> (s: IndexSession)
        ensures
            s.collection_id@ == collection_name_spec(epoch_secs),
            s.vector_dimension == VECTOR_DIMENSION,
            s.distance_metric@ == "Cosine"@,
    {
        IndexSession {
            collection_id: collection_name_for(epoch_secs),
            vector_dimension: VECTOR_DIMENSION,
            distance_metric: String::from_str("Cosine"),
        }
    }
}

/// One point of the upsert payload: a sequential id, the vector, and the
/// chunk text as payload.
pub struct IndexPoint<V> {
    pub id: u64,
    pub vector: V,
    pub text: String,
}

/// Gives the records their point ids: record `k` becomes point `k`, ids
/// sequential from zero in record order, text and vector carried over
/// unchanged.
#[verifier::loop_isolation(false)]
pub fn assign_point_ids<V>(records: Vec<EmbeddingRecord<V>>) -> (points: Vec<IndexPoint<V>>)
    ensures
        points@.len() == records@.len(),
        forall|k: int|
            0 <= k < points@.len() ==> (#[trigger] points@[k]).id == k && points@[k].text
                == records@[k].text && points@[k].vector == records@[k].embedding,
{
    let ghost full = records@;
    let mut rest = records;
    let total = rest.len();
    proof {
        assert(full.len() == total);
    }
    let mut points: Vec<IndexPoint<V>> = Vec::new();
    let mut i: usize = 0;
    while rest.len() > 0
        invariant
            full.len() <= usize::MAX,
            0 <= i <= full.len(),
            rest@ == full.skip(i as int),
            points@.len() == i,
            forall|k: int|
                0 <= k < i ==> (#[trigger] points@[k]).id == k && points@[k].text == full[k].text
                    && points@[k].vector == full[k].embedding,
        decreases rest@.len(),
    {
        proof {
            assert(full.skip(i as int)[0] == full[i as int]);
        }
        let rec = rest.remove(0);
        proof {
            assert(rest@ =~= full.skip(i + 1));
        }
        points.push(IndexPoint { id: i as u64, vector: rec.embedding, text: rec.text });
        i = i + 1;
    }
    points
}

} // verus!
