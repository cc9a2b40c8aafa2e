//! Chunk splitting: turns assembled blocks into size-bounded chunks.
//! A block that fits passes through whole. An oversized code block is
//! packed line by line, an oversized text block sentence by sentence,
//! greedily left to right; a single unit larger than the bound is emitted
//! alone rather than split inside. Every emitted chunk is trimmed and
//! non-empty.

use vstd::prelude::*;

use crate::blocks::{assemble_blocks, is_block_partition, plain_lines, Block, BlockKind};
use crate::text::{
    buffer_of, chars_to_string, copy_range, is_space, join_lines, lemma_trim_of_trimmed,
    lemma_trim_props, lemma_trim_start_props, lemma_trim_window, line_shaped, lines_spec,
    split_lines, str_to_chars, string_views, trim_chars, trim_end_spec, trim_spec,
    trim_start_spec, trimmed, views,
};
use crate::MAX_CHUNK_SIZE;

verus! {

/// Sentence terminators.
pub open spec fn is_term(c: char) -> bool {
    c == '.' || c == '!' || c == '?'
}

fn char_is_term(c: char) -> (r: bool)
    ensures
        r == is_term(c),
{
    c == '.' || c == '!' || c == '?'
}

/// Positions before `t` hold no terminator and positions from `t` on
/// hold only terminators.
pub open spec fn terminator_split_at(p: Seq<char>, t: int) -> bool {
    (forall|m: int| 0 <= m < t ==> !is_term(p[m])) && (forall|m: int|
        t <= m < p.len() ==> is_term(#[trigger] p[m]))
}

/// A raw sentence as the splitter extracts it: at least one
/// non-terminator, then at least one terminator, nothing after.
pub open spec fn piece_shaped(p: Seq<char>) -> bool {
    exists|t: int| 0 < t < p.len() && #[trigger] terminator_split_at(p, t)
}

/// A single sentence, possibly trimmed: terminators only as a non-empty
/// final run.
pub open spec fn single_sentence(p: Seq<char>) -> bool {
    exists|t: int| 0 <= t < p.len() && #[trigger] terminator_split_at(p, t)
}

/// One atomic packing unit: a single line of code or a single sentence.
/// Only such a unit may stand alone as an oversized chunk.
pub open spec fn atomic_unit(c: Seq<char>) -> bool {
    line_shaped(c) || single_sentence(c)
}

/// What the splitter guarantees of every emitted chunk: non-empty,
/// trimmed, and within the bound unless it is a single atomic unit.
pub open spec fn chunk_ok(c: Seq<char>, max: int) -> bool {
    &&& c.len() > 0
    &&& trimmed(c)
    &&& c.len() <= max || atomic_unit(c)
}

/// How the running chunk grows: the separator stands only between units.
pub open spec fn pack_step(cur: Seq<char>, unit: Seq<char>, sep: char) -> Seq<char> {
    if cur.len() == 0 {
        unit
    } else {
        cur + seq![sep] + unit
    }
}

/// What closing the running chunk emits: its trimmed value, or nothing
/// when only whitespace was left.
pub open spec fn closed_chunk(cur: Seq<char>) -> Seq<Seq<char>> {
    if trim_spec(cur).len() > 0 {
        seq![trim_spec(cur)]
    } else {
        Seq::empty()
    }
}

/// The greedy packing from unit `u` on, with running chunk `cur`: a unit
/// that would push the chunk (with its separator) past `max` closes the
/// chunk and itself opens the next; the end of the units closes the last
/// chunk.
pub open spec fn pack_scan(
    units: Seq<Seq<char>>,
    sep: char,
    max: int,
    u: int,
    cur: Seq<char>,
) -> Seq<Seq<char>>
    decreases units.len() - u,
{
    if u < 0 || u >= units.len() {
        closed_chunk(cur)
    } else if cur.len() + (if cur.len() == 0 {
        0int
    } else {
        1int
    }) + units[u].len() > max {
        closed_chunk(cur) + pack_scan(units, sep, max, u + 1, units[u])
    } else {
        pack_scan(units, sep, max, u + 1, pack_step(cur, units[u], sep))
    }
}

/// All chunks the greedy packing of `units` emits.
pub open spec fn packed(units: Seq<Seq<char>>, sep: char, max: int) -> Seq<Seq<char>> {
    pack_scan(units, sep, max, 0, Seq::empty())
}

/// The sentence scan: position `j`, current piece starting at `start`,
/// `started` once the piece holds a non-terminator, `seen` once it holds a
/// terminator. A piece is emitted at the first non-terminator after a
/// terminator run; a trailing fragment without a terminator is dropped,
/// as is a terminator run that no non-terminator preceded.
pub open spec fn sentence_scan(
    s: Seq<char>,
    j: int,
    start: int,
    started: bool,
    seen: bool,
) -> Seq<Seq<char>>
    decreases s.len() - j,
{
    if j < 0 || j >= s.len() {
        if started && seen {
            seq![s.subrange(start, s.len() as int)]
        } else {
            Seq::empty()
        }
    } else if !started {
        if is_term(s[j]) {
            sentence_scan(s, j + 1, start, false, false)
        } else {
            sentence_scan(s, j + 1, j, true, false)
        }
    } else if is_term(s[j]) {
        sentence_scan(s, j + 1, start, true, true)
    } else if seen {
        seq![s.subrange(start, j)] + sentence_scan(s, j + 1, j, true, false)
    } else {
        sentence_scan(s, j + 1, start, true, false)
    }
}

/// The sentences of a text: maximal runs of non-terminators followed by
/// one or more terminators.
pub open spec fn sentences_spec(s: Seq<char>) -> Seq<Seq<char>> {
    sentence_scan(s, 0, 0, false, false)
}

/// Splits a text into its sentences.
#[verifier::loop_isolation(false)]
pub fn split_sentences(v: &Vec<char>) -> (r: Vec<Vec<char>>)
    ensures
        views(r@) == sentences_spec(v@),
        forall|k: int| 0 <= k < r@.len() ==> piece_shaped(#[trigger] r@[k]@),
{
    let n = v.len();
    let mut r: Vec<Vec<char>> = Vec::new();
    let mut j: usize = 0;
    let mut start: usize = 0;
    let mut started = false;
    let mut seen = false;
    let ghost mut t_wit: int = 0;
    while j < n
        invariant
            0 <= start <= j <= n,
            started ==> start < j && !is_term(v@[start as int]),
            seen ==> started,
            started && seen ==> start < t_wit < j && (forall|m: int|
                start <= m < t_wit ==> !is_term(v@[m])) && (forall|m: int|
                t_wit <= m < j ==> is_term(#[trigger] v@[m])),
            started && !seen ==> forall|m: int| start <= m < j ==> !is_term(v@[m]),
            sentences_spec(v@) == views(r@) + sentence_scan(
                v@,
                j as int,
                start as int,
                started,
                seen,
            ),
            forall|k: int| 0 <= k < r@.len() ==> piece_shaped(#[trigger] r@[k]@),
        decreases n - j,
    {
        let c = v[j];
        if char_is_term(c) {
            if started && !seen {
                proof {
                    t_wit = j as int;
                }
                seen = true;
            }
            j = j + 1;
        } else {
            if !started {
                started = true;
                seen = false;
                start = j;
                j = j + 1;
            } else if seen {
                let piece = copy_range(v, start, j);
                let ghost old_r = r@;
                r.push(piece);
                proof {
                    assert(views(r@) =~= views(old_r).push(piece@));
                    assert(piece_shaped(piece@)) by {
                        let t = t_wit - start;
                        assert(0 < t < piece@.len());
                        assert(forall|m: int| 0 <= m < t ==> !is_term(piece@[m]));
                        assert(forall|m: int|
                            t <= m < piece@.len() ==> is_term(#[trigger] piece@[m]));
                        assert(terminator_split_at(piece@, t));
                    }
                    assert(views(old_r).push(piece@) + sentence_scan(
                        v@,
                        j + 1,
                        j as int,
                        true,
                        false,
                    ) =~= views(old_r) + (seq![piece@] + sentence_scan(
                        v@,
                        j + 1,
                        j as int,
                        true,
                        false,
                    )));
                }
                start = j;
                seen = false;
                j = j + 1;
            } else {
                j = j + 1;
            }
        }
    }
    if started && seen {
        let piece = copy_range(v, start, n);
        let ghost old_r = r@;
        r.push(piece);
        proof {
            assert(views(r@) =~= views(old_r).push(piece@));
            assert(piece_shaped(piece@)) by {
                let t = t_wit - start;
                assert(0 < t < piece@.len());
                assert(forall|m: int| 0 <= m < t ==> !is_term(piece@[m]));
                assert(forall|m: int| t <= m < piece@.len() ==> is_term(#[trigger] piece@[m]));
                assert(terminator_split_at(piece@, t));
            }
            assert(views(old_r).push(piece@) =~= views(old_r) + seq![piece@]);
        }
    }
    r
}

/// Trimming keeps a single line a single line.
proof fn lemma_trim_line_shaped(s: Seq<char>)
    requires
        line_shaped(s),
    ensures
        line_shaped(trim_spec(s)),
{
    lemma_trim_window(s);
    let a = choose|a: int|
        0 <= a && a + trim_spec(s).len() <= s.len() && trim_spec(s) == #[trigger] s.subrange(
            a,
            a + trim_spec(s).len(),
        );
    assert forall|i: int| 0 <= i < trim_spec(s).len() implies trim_spec(s)[i] != '\n' by {
        assert(trim_spec(s)[i] == s[a + i]);
    }
}

/// Trimming a raw sentence leaves a single sentence: the trailing
/// terminator run survives because terminators are not whitespace.
proof fn lemma_trim_single_sentence(s: Seq<char>)
    requires
        piece_shaped(s),
    ensures
        single_sentence(trim_spec(s)),
{
    let t = choose|t: int| 0 < t < s.len() && #[trigger] terminator_split_at(s, t);
    lemma_trim_start_props(s);
    let u = trim_start_spec(s);
    let k = s.len() - u.len();
    assert(k <= t) by {
        if k > t {
            assert(is_space(s[t]));
            assert(is_term(s[t]));
        }
    }
    assert(u.len() > 0);
    assert(u[u.len() - 1] == s[s.len() - 1]);
    assert(is_term(s[s.len() - 1]));
    assert(trim_end_spec(u) == u);
    assert(trim_spec(s) == u);
    let tp = t - k;
    assert(terminator_split_at(u, tp)) by {
        assert(forall|m: int| 0 <= m < tp ==> u[m] == s[k + m] && !is_term(u[m]));
        assert(forall|m: int| tp <= m < u.len() ==> u[m] == s[k + m] && is_term(#[trigger] u[m]));
    }
}

/// Greedily packs units into chunks, left to right: a unit that would push
/// the running chunk (with its separator) past the bound closes the chunk
/// and starts a new one; a single unit past the bound stands alone. Each
/// closed chunk is trimmed and dropped if then empty. The new chunks are
/// exactly the greedy packing, appended to `out`; what was already there
/// is untouched.
#[verifier::loop_isolation(false)]
fn pack_units(units: &Vec<Vec<char>>, sep: char, max: usize, out: &mut Vec<String>)
    requires
        forall|k: int|
            0 <= k < units@.len() ==> line_shaped(#[trigger] units@[k]@) || piece_shaped(
                units@[k]@,
            ),
    ensures
        string_views(final(out)@) == string_views(old(out)@) + packed(
            views(units@),
            sep,
            max as int,
        ),
        final(out)@.len() >= old(out)@.len(),
        forall|k: int| 0 <= k < old(out)@.len() ==> final(out)@[k] == old(out)@[k],
        forall|k: int|
            old(out)@.len() <= k < final(out)@.len() ==> chunk_ok(
                (#[trigger] final(out)@[k])@,
                max as int,
            ),
{
    let ghost uviews = views(units@);
    let mut cur: Vec<char> = Vec::new();
    let mut u: usize = 0;
    while u < units.len()
        invariant
            0 <= u <= units@.len(),
            out@.len() >= old(out)@.len(),
            forall|k: int| 0 <= k < old(out)@.len() ==> out@[k] == old(out)@[k],
            forall|k: int|
                old(out)@.len() <= k < out@.len() ==> chunk_ok(
                    (#[trigger] out@[k])@,
                    max as int,
                ),
            cur@.len() <= max || line_shaped(cur@) || piece_shaped(cur@),
            string_views(out@) + pack_scan(uviews, sep, max as int, u as int, cur@)
                == string_views(old(out)@) + packed(uviews, sep, max as int),
        decreases units@.len() - u,
    {
        let unit = &units[u];
        assert(unit@ == units@[u as int]@);
        let over: bool = if cur.len() == 0 {
            unit.len() > max
        } else if cur.len() >= max {
            true
        } else {
            unit.len() > max - cur.len() - 1
        };
        assert(over == (cur@.len() + (if cur@.len() == 0 {
            0int
        } else {
            1int
        }) + uviews[u as int].len() > max));
        if over {
            let ghost closing = cur@;
            if cur.len() > 0 {
                let t = trim_chars(&cur);
                if t.len() > 0 {
                    proof {
                        lemma_trim_props(cur@);
                        if cur@.len() > max {
                            if line_shaped(cur@) {
                                lemma_trim_line_shaped(cur@);
                            } else {
                                lemma_trim_single_sentence(cur@);
                            }
                        }
                        assert(chunk_ok(trim_spec(cur@), max as int));
                    }
                    let chunk = chars_to_string(&t);
                    let ghost old_out = out@;
                    out.push(chunk);
                    proof {
                        assert(string_views(out@) =~= string_views(old_out).push(
                            trim_spec(closing),
                        ));
                        assert(string_views(old_out).push(trim_spec(closing)) =~= string_views(
                            old_out,
                        ) + closed_chunk(closing));
                    }
                } else {
                    proof {
                        assert(string_views(out@) + closed_chunk(closing) =~= string_views(out@));
                    }
                }
            } else {
                proof {
                    assert(trim_spec(closing) =~= closing);
                    assert(string_views(out@) + closed_chunk(closing) =~= string_views(out@));
                }
            }
            cur = copy_range(unit, 0, unit.len());
            proof {
                assert(cur@ =~= units@[u as int]@);
                assert(string_views(out@) + (closed_chunk(closing) + pack_scan(
                    uviews,
                    sep,
                    max as int,
                    u + 1,
                    cur@,
                )) =~= (string_views(out@) + closed_chunk(closing)) + pack_scan(
                    uviews,
                    sep,
                    max as int,
                    u + 1,
                    cur@,
                ));
            }
        } else {
            let ghost pre = cur@;
            if cur.len() > 0 {
                cur.push(sep);
            }
            let mut t: usize = 0;
            let ghost mid = cur@;
            while t < unit.len()
                invariant
                    0 <= t <= unit@.len(),
                    cur@ == mid + unit@.take(t as int),
                decreases unit@.len() - t,
            {
                cur.push(unit[t]);
                assert(cur@ =~= mid + unit@.take(t + 1));
                t = t + 1;
            }
            proof {
                assert(unit@.take(unit@.len() as int) =~= unit@);
                assert(cur@ =~= pack_step(pre, uviews[u as int], sep));
                assert(cur@.len() <= max);
            }
        }
        u = u + 1;
    }
    let ghost closing = cur@;
    if cur.len() > 0 {
        let t = trim_chars(&cur);
        if t.len() > 0 {
            proof {
                lemma_trim_props(cur@);
                if cur@.len() > max {
                    if line_shaped(cur@) {
                        lemma_trim_line_shaped(cur@);
                    } else {
                        lemma_trim_single_sentence(cur@);
                    }
                }
                assert(chunk_ok(trim_spec(cur@), max as int));
            }
            let chunk = chars_to_string(&t);
            let ghost old_out = out@;
            out.push(chunk);
            proof {
                assert(string_views(out@) =~= string_views(old_out).push(trim_spec(closing)));
                assert(string_views(old_out).push(trim_spec(closing)) =~= string_views(old_out)
                    + closed_chunk(closing));
            }
        } else {
            proof {
                assert(string_views(out@) + closed_chunk(closing) =~= string_views(out@));
            }
        }
    } else {
        proof {
            assert(trim_spec(closing) =~= closing);
            assert(string_views(out@) + closed_chunk(closing) =~= string_views(out@));
        }
    }
}

/// The chunks one block contributes: its trimmed content if it fits the
/// bound (nothing if that is empty), else the greedy packing of its
/// lines (code) or sentences (text).
pub open spec fn block_chunks(b: Block, max: int) -> Seq<Seq<char>> {
    if b.content@.len() <= max {
        closed_chunk(b.content@)
    } else if b.kind == BlockKind::Code {
        packed(lines_spec(b.content@), '\n', max)
    } else {
        packed(sentences_spec(b.content@), ' ', max)
    }
}

/// The chunk sequence a block sequence yields, block by block in order.
pub open spec fn chunks_of_blocks(blocks: Seq<Block>, max: int) -> Seq<Seq<char>>
    decreases blocks.len(),
{
    if blocks.len() == 0 {
        Seq::empty()
    } else {
        block_chunks(blocks[0], max) + chunks_of_blocks(blocks.drop_first(), max)
    }
}

proof fn lemma_chunks_of_blocks_snoc(blocks: Seq<Block>, b: Block, max: int)
    ensures
        chunks_of_blocks(blocks.push(b), max) == chunks_of_blocks(blocks, max) + block_chunks(
            b,
            max,
        ),
    decreases blocks.len(),
{
    let p = blocks.push(b);
    if blocks.len() == 0 {
        assert(p.len() == 1);
        assert(p[0] == b);
        assert(p.drop_first() =~= Seq::<Block>::empty());
        assert(chunks_of_blocks(p.drop_first(), max) =~= Seq::<Seq<char>>::empty());
        assert(block_chunks(b, max) + Seq::<Seq<char>>::empty() =~= block_chunks(b, max));
        assert(chunks_of_blocks(p, max) =~= block_chunks(b, max));
        assert(chunks_of_blocks(blocks, max) + block_chunks(b, max) =~= block_chunks(b, max));
    } else {
        assert(p.drop_first() =~= blocks.drop_first().push(b));
        lemma_chunks_of_blocks_snoc(blocks.drop_first(), b, max);
        assert(block_chunks(p[0], max) + (chunks_of_blocks(blocks.drop_first(), max)
            + block_chunks(b, max)) =~= (block_chunks(blocks[0], max) + chunks_of_blocks(
            blocks.drop_first(),
            max,
        )) + block_chunks(b, max));
    }
}

/// Turns assembled blocks into the final chunk sequence: exactly the
/// blocks' contributions, in block order.
///
/// Every chunk satisfies `chunk_ok`. A block whose content fits the bound
/// passes through whole: its (already trimmed) content appears among the
/// chunks unless it is empty. A single fitting block yields exactly its
/// content as the only chunk, or nothing if that content is empty.
#[verifier::loop_isolation(false)]
pub fn split_blocks(blocks: &Vec<Block>, max_chunk_size: usize) -> (chunks: Vec<String>)
    ensures
        string_views(chunks@) == chunks_of_blocks(blocks@, max_chunk_size as int),
        forall|k: int|
            0 <= k < chunks@.len() ==> chunk_ok((#[trigger] chunks@[k])@, max_chunk_size as int),
        forall|b: int|
            0 <= b < blocks@.len() && (#[trigger] blocks@[b]).content@.len() <= max_chunk_size
                && trim_spec(blocks@[b].content@).len() > 0 ==> exists|k: int|
                0 <= k < chunks@.len() && (#[trigger] chunks@[k])@ == trim_spec(
                    blocks@[b].content@,
                ),
        blocks@.len() == 1 && blocks@[0].content@.len() <= max_chunk_size ==> if trim_spec(
            blocks@[0].content@,
        ).len() == 0 {
            chunks@.len() == 0
        } else {
            chunks@.len() == 1 && chunks@[0]@ == trim_spec(blocks@[0].content@)
        },
{
    let mut chunks: Vec<String> = Vec::new();
    let mut b: usize = 0;
    proof {
        assert(blocks@.take(0) =~= Seq::<Block>::empty());
    }
    while b < blocks.len()
        invariant
            0 <= b <= blocks@.len(),
            string_views(chunks@) == chunks_of_blocks(
                blocks@.take(b as int),
                max_chunk_size as int,
            ),
            forall|k: int|
                0 <= k < chunks@.len() ==> chunk_ok(
                    (#[trigger] chunks@[k])@,
                    max_chunk_size as int,
                ),
            forall|i: int|
                0 <= i < b && (#[trigger] blocks@[i]).content@.len() <= max_chunk_size
                    && trim_spec(blocks@[i].content@).len() > 0 ==> exists|k: int|
                    0 <= k < chunks@.len() && (#[trigger] chunks@[k])@ == trim_spec(
                        blocks@[i].content@,
                    ),
            blocks@.len() == 1 && blocks@[0].content@.len() <= max_chunk_size ==> if b == 0 {
                chunks@.len() == 0
            } else if trim_spec(blocks@[0].content@).len() == 0 {
                chunks@.len() == 0
            } else {
                chunks@.len() == 1 && chunks@[0]@ == trim_spec(blocks@[0].content@)
            },
        decreases blocks@.len() - b,
    {
        let blk = &blocks[b];
        let content = str_to_chars(blk.content.as_str());
        assert(content@ == blocks@[b as int].content@);
        proof {
            assert(blocks@.take(b + 1) =~= blocks@.take(b as int).push(blocks@[b as int]));
            lemma_chunks_of_blocks_snoc(
                blocks@.take(b as int),
                blocks@[b as int],
                max_chunk_size as int,
            );
        }
        if content.len() <= max_chunk_size {
            let t = trim_chars(&content);
            if t.len() > 0 {
                proof {
                    lemma_trim_props(content@);
                }
                assert(closed_chunk(blocks@[b as int].content@) == seq![trim_spec(
                    blocks@[b as int].content@,
                )]);
                let ghost old_chunks = chunks@;
                let chunk = chars_to_string(&t);
                chunks.push(chunk);
                proof {
                    assert(string_views(chunks@) =~= string_views(old_chunks).push(
                        trim_spec(blocks@[b as int].content@),
                    ));
                    assert(string_views(old_chunks).push(trim_spec(blocks@[b as int].content@))
                        =~= string_views(old_chunks) + closed_chunk(blocks@[b as int].content@));
                    assert(chunks@[old_chunks.len() as int]@ == trim_spec(
                        blocks@[b as int].content@,
                    ));
                    assert forall|i: int|
                        0 <= i < b + 1 && (#[trigger] blocks@[i]).content@.len()
                            <= max_chunk_size && trim_spec(blocks@[i].content@).len() > 0
                        implies exists|k: int|
                        0 <= k < chunks@.len() && (#[trigger] chunks@[k])@ == trim_spec(
                            blocks@[i].content@,
                        ) by {
                        if i < b {
                            let k = choose|k: int|
                                0 <= k < old_chunks.len() && (#[trigger] old_chunks[k])@
                                    == trim_spec(blocks@[i].content@);
                            assert(chunks@[k]@ == trim_spec(blocks@[i].content@));
                        } else {
                            assert(chunks@[old_chunks.len() as int]@ == trim_spec(
                                blocks@[i].content@,
                            ));
                        }
                    }
                }
            } else {
                proof {
                    assert(closed_chunk(blocks@[b as int].content@) =~= Seq::<Seq<char>>::empty());
                    assert(string_views(chunks@) + closed_chunk(blocks@[b as int].content@)
                        =~= string_views(chunks@));
                }
            }
        } else {
            let ghost old_chunks = chunks@;
            match blk.kind {
                BlockKind::Code => {
                    let units = split_lines(&content);
                    pack_units(&units, '\n', max_chunk_size, &mut chunks);
                },
                BlockKind::Text => {
                    let units = split_sentences(&content);
                    pack_units(&units, ' ', max_chunk_size, &mut chunks);
                },
            }
            proof {
                assert forall|i: int|
                    0 <= i < b + 1 && (#[trigger] blocks@[i]).content@.len() <= max_chunk_size
                        && trim_spec(blocks@[i].content@).len() > 0 implies exists|k: int|
                    0 <= k < chunks@.len() && (#[trigger] chunks@[k])@ == trim_spec(
                        blocks@[i].content@,
                    ) by {
                    assert(i < b);
                    let k = choose|k: int|
                        0 <= k < old_chunks.len() && (#[trigger] old_chunks[k])@ == trim_spec(
                            blocks@[i].content@,
                        );
                    assert(chunks@[k]@ == trim_spec(blocks@[i].content@));
                }
            }
        }
        b = b + 1;
    }
    proof {
        assert(blocks@.take(blocks@.len() as int) =~= blocks@);
    }
    chunks
}

/// A document in which no line and no growing buffer prefix classifies as
/// code, whose trimmed content is non-empty and fits the bound: the whole
/// pipeline turns such a document into exactly one chunk.
pub open spec fn single_paragraph(text: Seq<char>, max: int) -> bool {
    &&& plain_lines(lines_spec(text))
    &&& buffer_of(lines_spec(text)).len() > 0
    &&& 0 < trim_spec(join_lines(lines_spec(text))).len() <= max
}

/// Splits a document into classified, size-bounded chunks with the given
/// bound: the document's lines assemble into blocks along some cut
/// sequence, and the chunks are exactly those blocks' contributions.
pub fn chunks_with_limit(text: &str, max_chunk_size: usize) -> (chunks: Vec<String>)
    ensures
        exists|bs: Seq<Block>, cuts: Seq<int>|
            #[trigger] is_block_partition(lines_spec(text@), bs, cuts) && string_views(chunks@)
                == chunks_of_blocks(bs, max_chunk_size as int),
        forall|k: int|
            0 <= k < chunks@.len() ==> chunk_ok((#[trigger] chunks@[k])@, max_chunk_size as int),
        single_paragraph(text@, max_chunk_size as int) ==> chunks@.len() == 1 && chunks@[0]@
            == trim_spec(join_lines(lines_spec(text@))),
{
    let blocks = assemble_blocks(text);
    proof {
        if single_paragraph(text@, max_chunk_size as int) {
            lemma_trim_props(join_lines(lines_spec(text@)));
            lemma_trim_of_trimmed(trim_spec(join_lines(lines_spec(text@))));
        }
    }
    let chunks = split_blocks(&blocks, max_chunk_size);
    proof {
        let cuts = choose|cuts: Seq<int>| is_block_partition(lines_spec(text@), blocks@, cuts);
        assert(is_block_partition(lines_spec(text@), blocks@, cuts) && string_views(chunks@)
            == chunks_of_blocks(blocks@, max_chunk_size as int));
    }
    chunks
}

/// Splits a document into classified chunks of at most `MAX_CHUNK_SIZE`
/// characters, except that a single oversized line or sentence stands
/// whole as its own chunk.
pub fn create_chunks(text: &str) -> (chunks: Vec<String>)
    ensures
        exists|bs: Seq<Block>, cuts: Seq<int>|
            #[trigger] is_block_partition(lines_spec(text@), bs, cuts) && string_views(chunks@)
                == chunks_of_blocks(bs, MAX_CHUNK_SIZE as int),
        forall|k: int|
            0 <= k < chunks@.len() ==> chunk_ok((#[trigger] chunks@[k])@, MAX_CHUNK_SIZE as int),
        single_paragraph(text@, MAX_CHUNK_SIZE as int) ==> chunks@.len() == 1 && chunks@[0]@
            == trim_spec(join_lines(lines_spec(text@))),
{
    chunks_with_limit(text, MAX_CHUNK_SIZE)
}

} // verus!
