//! Block assembly: groups the lines of a document into maximal runs of one
//! classified kind. A buffer absorbs lines; when a code-classified line
//! follows a prose buffer (or a prose line follows a code buffer) the
//! buffer is flushed as a block. A code line containing an opening brace
//! greedily absorbs following lines until the brace depth returns to zero,
//! so a brace body stays in one block. Every block's content is the
//! trimmed join of a contiguous run of input lines, so concatenating the
//! blocks reproduces the document modulo boundary whitespace.

use vstd::prelude::*;

use crate::classify::{is_code_chars, is_code_text};
use crate::text::{
    buffer_of, chars_to_string, glue, join_lines, lemma_trim_buffer_is_trim_join, lines_spec,
    split_lines, str_to_chars, trim_chars, trim_spec, views,
};

verus! {

#[derive(Clone, Copy, Debug, PartialEq, Eq, Structural)]
pub enum BlockKind {
    Code,
    Text,
}

/// A maximal run of lines sharing one classified kind. The content is
/// trimmed at both ends.
#[derive(Clone, Debug)]
pub struct Block {
    pub kind: BlockKind,
    pub content: String,
}

/// The kind a finished buffer is flushed as: classified from its whole
/// content, not only its last line.
pub open spec fn segment_kind(ls: Seq<Seq<char>>) -> BlockKind {
    if is_code_text(buffer_of(ls)) {
        BlockKind::Code
    } else {
        BlockKind::Text
    }
}

/// `cuts` splits the line sequence into the contiguous segments the blocks
/// came from: block `k` covers lines `cuts[k] .. cuts[k+1]`, its content is
/// the trimmed join of those lines and its kind their classification. Lines
/// after the last cut were absorbed into no block; they are all empty.
pub open spec fn is_block_partition(
    lines: Seq<Seq<char>>,
    blocks: Seq<Block>,
    cuts: Seq<int>,
) -> bool {
    &&& cuts.len() == blocks.len() + 1
    &&& cuts[0] == 0
    &&& 0 <= cuts[blocks.len() as int] <= lines.len()
    &&& forall|i: int|
        cuts[blocks.len() as int] <= i < lines.len() ==> (#[trigger] lines[i]).len() == 0
    &&& forall|k: int| 0 <= k < blocks.len() ==> #[trigger] cuts[k] < cuts[k + 1]
    &&& forall|k: int|
        0 <= k < blocks.len() ==> (#[trigger] blocks[k]).content@ == trim_spec(
            join_lines(lines.subrange(cuts[k], cuts[k + 1])),
        )
    &&& forall|k: int|
        0 <= k < blocks.len() ==> (#[trigger] blocks[k]).kind == segment_kind(
            lines.subrange(cuts[k], cuts[k + 1]),
        )
}

/// A document with no code signal anywhere: no line classifies as code,
/// and no prefix of the growing buffer does either.
pub open spec fn plain_lines(ls: Seq<Seq<char>>) -> bool {
    &&& forall|i: int| 0 <= i < ls.len() ==> !is_code_text(#[trigger] ls[i])
    &&& forall|n: int| 0 <= n <= ls.len() ==> !is_code_text(buffer_of(#[trigger] ls.take(n)))
}

/// A buffer that ends up empty can only have absorbed empty lines.
pub proof fn lemma_empty_buffer(ls: Seq<Seq<char>>)
    requires
        buffer_of(ls).len() == 0,
    ensures
        forall|i: int| 0 <= i < ls.len() ==> (#[trigger] ls[i]).len() == 0,
    decreases ls.len(),
{
    if ls.len() > 0 {
        let prefix = ls.drop_last();
        assert(buffer_of(ls) == glue(buffer_of(prefix), ls.last()));
        assert(buffer_of(prefix).len() == 0);
        lemma_empty_buffer(prefix);
        assert forall|i: int| 0 <= i < ls.len() implies (#[trigger] ls[i]).len() == 0 by {
            if i < ls.len() - 1 {
                assert(ls[i] == prefix[i]);
            }
        }
    }
}

/// Number of occurrences of `c` in `s`.
pub open spec fn count_char_spec(s: Seq<char>, c: char) -> nat
    decreases s.len(),
{
    if s.len() == 0 {
        0
    } else {
        count_char_spec(s.drop_last(), c) + (if s.last() == c {
            1nat
        } else {
            0nat
        })
    }
}

fn count_char(v: &Vec<char>, c: char) -> (r: usize)
    ensures
        r == count_char_spec(v@, c),
        r <= v@.len(),
{
    let mut cnt: usize = 0;
    let mut i: usize = 0;
    while i < v.len()
        invariant
            0 <= i <= v@.len(),
            cnt <= i,
            cnt == count_char_spec(v@.take(i as int), c),
        decreases v@.len() - i,
    {
        proof {
            assert(v@.take(i + 1).drop_last() =~= v@.take(i as int));
            assert(v@.take(i + 1).last() == v@[i as int]);
        }
        if v[i] == c {
            cnt = cnt + 1;
        }
        i = i + 1;
    }
    assert(v@.take(v@.len() as int) =~= v@);
    cnt
}

/// Appends a line to the buffer, separating with a newline only when the
/// buffer already has content.
fn append_line(buf: &mut Vec<char>, line: &Vec<char>)
    ensures
        final(buf)@ == glue(old(buf)@, line@),
{
    if buf.len() > 0 {
        buf.push('\n');
    }
    let ghost mid = buf@;
    let mut t: usize = 0;
    while t < line.len()
        invariant
            0 <= t <= line@.len(),
            buf@ == mid + line@.take(t as int),
        decreases line@.len() - t,
    {
        buf.push(line[t]);
        assert(buf@ =~= mid + line@.take(t + 1));
        t = t + 1;
    }
    proof {
        assert(line@.take(line@.len() as int) =~= line@);
        assert(buf@ =~= glue(old(buf)@, line@));
    }
}

/// Assembles classified blocks from a sequence of lines.
///
/// The first postcondition is the reconstruction law: some cut sequence
/// certifies that the blocks' contents are the trimmed joins of contiguous
/// line runs covering the document. The second says a document with no
/// code signal anywhere collapses into at most one text block holding the
/// whole trimmed document.
#[verifier::loop_isolation(false)]
#[verifier::rlimit(60)]
pub fn assemble_lines(lines: &Vec<Vec<char>>) -> (blocks: Vec<Block>)
    ensures
        exists|cuts: Seq<int>| is_block_partition(views(lines@), blocks@, cuts),
        plain_lines(views(lines@)) ==> if buffer_of(views(lines@)).len() == 0 {
            blocks@.len() == 0
        } else {
            blocks@.len() == 1 && blocks@[0].kind == BlockKind::Text && blocks@[0].content@
                == trim_spec(join_lines(views(lines@)))
        },
{
    let ghost ls = views(lines@);
    let n = lines.len();
    let mut blocks: Vec<Block> = Vec::new();
    let mut buf: Vec<char> = Vec::new();
    let mut i: usize = 0;
    let ghost mut j: int = 0;
    let ghost mut cuts: Seq<int> = seq![0int];
    proof {
        assert(ls.subrange(0, 0) =~= Seq::<Seq<char>>::empty());
    }
    while i < n
        invariant
            0 <= j <= i <= n,
            buf@ == buffer_of(ls.subrange(j, i as int)),
            cuts.len() == blocks@.len() + 1,
            cuts[0] == 0,
            cuts[blocks@.len() as int] == j,
            forall|k: int| 0 <= k < blocks@.len() ==> #[trigger] cuts[k] < cuts[k + 1],
            forall|k: int|
                0 <= k < blocks@.len() ==> (#[trigger] blocks@[k]).content@ == trim_spec(
                    join_lines(ls.subrange(cuts[k], cuts[k + 1])),
                ),
            forall|k: int|
                0 <= k < blocks@.len() ==> (#[trigger] blocks@[k]).kind == segment_kind(
                    ls.subrange(cuts[k], cuts[k + 1]),
                ),
            plain_lines(ls) ==> blocks@.len() == 0 && j == 0,
        decreases n - i,
    {
        let line = &lines[i];
        assert(line@ == ls[i as int]);
        let line_is_code = is_code_chars(line);
        if line_is_code {
            proof {
                if plain_lines(ls) {
                    assert(!is_code_text(ls[i as int]));
                    assert(false);
                }
            }
            if buf.len() > 0 && !is_code_chars(&buf) {
                let trimmed_buf = trim_chars(&buf);
                let content = chars_to_string(&trimmed_buf);
                proof {
                    lemma_trim_buffer_is_trim_join(ls.subrange(j, i as int));
                }
                blocks.push(Block { kind: BlockKind::Text, content });
                buf = Vec::new();
                proof {
                    cuts = cuts.push(i as int);
                    j = i as int;
                    assert(ls.subrange(j, i as int) =~= Seq::<Seq<char>>::empty());
                }
            }
            proof {
                assert(ls.subrange(j, i + 1).drop_last() =~= ls.subrange(j, i as int));
                assert(ls.subrange(j, i + 1).last() == ls[i as int]);
            }
            append_line(&mut buf, line);
            proof {
                assert(buf@ == glue(buffer_of(ls.subrange(j, i as int)), ls[i as int]));
                assert(buffer_of(ls.subrange(j, i + 1)) == glue(
                    buffer_of(ls.subrange(j, i as int)),
                    ls[i as int],
                ));
            }
            if count_char(line, '{') > 0 {
                let mut depth: usize = 1;
                let ghost i_entry = i as int;
                while i + 1 < n && depth > 0
                    invariant
                        i_entry <= i,
                        j <= i < n,
                        buf@ == buffer_of(ls.subrange(j, i + 1)),
                    decreases n - i,
                {
                    i = i + 1;
                    proof {
                        assert(ls.subrange(j, i + 1).drop_last() =~= ls.subrange(j, i as int));
                        assert(ls.subrange(j, i + 1).last() == ls[i as int]);
                    }
                    let consumed = &lines[i];
                    assert(consumed@ == ls[i as int]);
                    append_line(&mut buf, consumed);
                    let opens = count_char(consumed, '{');
                    let closes = count_char(consumed, '}');
                    // saturating depth arithmetic keeps the scan total
                    depth = if opens > usize::MAX - depth {
                        usize::MAX
                    } else {
                        depth + opens
                    };
                    depth = if closes > depth {
                        0
                    } else {
                        depth - closes
                    };
                }
            }
            i = i + 1;
        } else {
            if buf.len() > 0 && is_code_chars(&buf) {
                let trimmed_buf = trim_chars(&buf);
                let content = chars_to_string(&trimmed_buf);
                proof {
                    lemma_trim_buffer_is_trim_join(ls.subrange(j, i as int));
                }
                blocks.push(Block { kind: BlockKind::Code, content });
                buf = Vec::new();
                proof {
                    cuts = cuts.push(i as int);
                    j = i as int;
                    assert(ls.subrange(j, i as int) =~= Seq::<Seq<char>>::empty());
                    if plain_lines(ls) {
                        assert(ls.take(i as int) =~= ls.subrange(0, i as int));
                        assert(!is_code_text(buffer_of(ls.take(i as int))));
                        assert(false);
                    }
                }
            }
            proof {
                assert(ls.subrange(j, i + 1).drop_last() =~= ls.subrange(j, i as int));
                assert(ls.subrange(j, i + 1).last() == ls[i as int]);
            }
            append_line(&mut buf, line);
            proof {
                assert(buf@ == glue(buffer_of(ls.subrange(j, i as int)), ls[i as int]));
                assert(buffer_of(ls.subrange(j, i + 1)) == glue(
                    buffer_of(ls.subrange(j, i as int)),
                    ls[i as int],
                ));
            }
            i = i + 1;
        }
    }
    if buf.len() > 0 {
        let kind = if is_code_chars(&buf) {
            BlockKind::Code
        } else {
            BlockKind::Text
        };
        let trimmed_buf = trim_chars(&buf);
        let content = chars_to_string(&trimmed_buf);
        proof {
            lemma_trim_buffer_is_trim_join(ls.subrange(j, n as int));
        }
        blocks.push(Block { kind, content });
        proof {
            cuts = cuts.push(n as int);
            if plain_lines(ls) {
                assert(ls.take(n as int) =~= ls);
                assert(ls.subrange(0, n as int) =~= ls);
                assert(!is_code_text(buffer_of(ls)));
            }
        }
    }
    proof {
        let tail = ls.subrange(cuts[blocks@.len() as int], n as int);
        assert(buffer_of(tail) == Seq::<char>::empty());
        lemma_empty_buffer(tail);
        assert forall|i: int|
            cuts[blocks@.len() as int] <= i < ls.len() implies (#[trigger] ls[i]).len() == 0 by {
            assert(ls[i] == tail[i - cuts[blocks@.len() as int]]);
        }
        assert(is_block_partition(ls, blocks@, cuts));
        if plain_lines(ls) && buffer_of(ls).len() == 0 {
            assert(ls.subrange(0, n as int) =~= ls);
        }
        if plain_lines(ls) && buffer_of(ls).len() > 0 {
            assert(ls.subrange(0, n as int) =~= ls);
        }
    }
    blocks
}

/// Splits a document into lines and assembles them into classified blocks.
pub fn assemble_blocks(text: &str) -> (blocks: Vec<Block>)
    ensures
        exists|cuts: Seq<int>| is_block_partition(lines_spec(text@), blocks@, cuts),
        plain_lines(lines_spec(text@)) ==> if buffer_of(lines_spec(text@)).len() == 0 {
            blocks@.len() == 0
        } else {
            blocks@.len() == 1 && blocks@[0].kind == BlockKind::Text && blocks@[0].content@
                == trim_spec(join_lines(lines_spec(text@)))
        },
{
    let v = str_to_chars(text);
    let lines = split_lines(&v);
    assemble_lines(&lines)
}

/// Position of the brace that closes an opening at `start_index`: scans
/// forward from `start_index + 1` with depth one, adjusting by one per
/// brace, and reports the index where the depth reaches zero, or the text
/// length if it never does.
pub open spec fn brace_scan(s: Seq<char>, i: int, count: int) -> int
    decreases s.len() - i,
{
    if i < 0 || i >= s.len() {
        s.len() as int
    } else {
        let next = count + (if s[i] == '{' {
            1int
        } else {
            0int
        }) - (if s[i] == '}' {
            1int
        } else {
            0int
        });
        if next == 0 {
            i
        } else {
            brace_scan(s, i + 1, next)
        }
    }
}

/// Finds the character index of the brace matching an opening brace at
/// `start_index`, or the character length of the text if it is unmatched.
pub fn find_matching_brace(text: &str, start_index: usize) -> (r: usize)
    requires
        start_index < usize::MAX,
    ensures
        r == brace_scan(text@, start_index + 1, 1),
{
    let chars = str_to_chars(text);
    let n = chars.len();
    let mut count: i128 = 1;
    let mut i: usize = start_index + 1;
    while i < n
        invariant
            chars@ == text@,
            n == chars@.len(),
            start_index + 1 <= i,
            -(i as int) <= count <= i + 1,
            count != 0,
            brace_scan(chars@, start_index + 1, 1) == brace_scan(chars@, i as int, count as int),
        decreases n - i,
    {
        if chars[i] == '{' {
            count = count + 1;
        }
        if chars[i] == '}' {
            count = count - 1;
        }
        if count == 0 {
            return i;
        }
        i = i + 1;
    }
    n
}

} // verus!
