//! Pure text handling behind the host's console hooks.
//!
//! The unverified hook layer intercepts two streams: raw console writes,
//! whose interesting part is whatever follows the last echoed prompt
//! marker, and per-line console prints, of which prompt-noise lines are
//! not forwarded. The byte- and line-level decisions live here.

use vstd::prelude::*;
use vstd::slice::slice_index_get;
use vstd::utf8::{encode_scalar, encode_utf8};

verus! {

/// The prompt marker the host writes before echoing a command: `]`, an
/// ANSI color-reset escape, and a space. Command output is what follows
/// the last occurrence.
pub open spec fn console_marker() -> Seq<u8> {
    seq![0x5du8, 0x1bu8, 0x5bu8, 0x33u8, 0x39u8, 0x3bu8, 0x34u8, 0x39u8, 0x6du8, 0x20u8]
}

/// The marker occupies bytes `[i, i + 10)` of `b`.
pub open spec fn marker_at(b: Seq<u8>, i: int) -> bool {
    0 <= i && i + 10 <= b.len() && b.subrange(i, i + 10) == console_marker()
}

/// Everything after the last occurrence of the prompt marker; the whole
/// input when the marker never occurs.
pub open spec fn command_output_of(b: Seq<u8>) -> Seq<u8>
    decreases b.len(),
{
    if b.len() < 10 {
        b
    } else if marker_at(b, b.len() - 10) {
        Seq::empty()
    } else {
        command_output_of(b.drop_last()).push(b.last())
    }
}

proof fn lemma_marker_at_drop_last(b: Seq<u8>, i: int)
    requires
        b.len() > 0,
        marker_at(b.drop_last(), i),
    ensures
        marker_at(b, i),
{
    assert(b.drop_last().subrange(i, i + 10) =~= b.subrange(i, i + 10));
}

proof fn lemma_command_output_no_marker(b: Seq<u8>)
    requires
        forall|j: int| !marker_at(b, j),
    ensures
        command_output_of(b) == b,
    decreases b.len(),
{
    if b.len() >= 10 {
        assert forall|j: int| !marker_at(b.drop_last(), j) by {
            if marker_at(b.drop_last(), j) {
                lemma_marker_at_drop_last(b, j);
            }
        }
        lemma_command_output_no_marker(b.drop_last());
        assert(command_output_of(b) =~= b);
    }
}

proof fn lemma_command_output_last_marker(b: Seq<u8>, s: int)
    requires
        marker_at(b, s),
        forall|j: int| j > s ==> !marker_at(b, j),
    ensures
        command_output_of(b) == b.skip(s + 10),
    decreases b.len(),
{
    if s == b.len() - 10 {
        assert(b.skip(s + 10) =~= Seq::<u8>::empty());
    } else {
        assert(s < b.len() - 10);
        let front = b.drop_last();
        assert(marker_at(front, s)) by {
            assert(front.subrange(s, s + 10) =~= b.subrange(s, s + 10));
        }
        assert forall|j: int| j > s implies !marker_at(front, j) by {
            if marker_at(front, j) {
                lemma_marker_at_drop_last(b, j);
            }
        }
        lemma_command_output_last_marker(front, s);
        assert(command_output_of(b) =~= b.skip(s + 10));
    }
}

fn marker_match(buf: &[u8], s: usize) -> (m: bool)
    requires
        s + 10 <= buf@.len(),
        buf@.len() <= usize::MAX,
    ensures
        m == marker_at(buf@, s as int),
{
    let m = *slice_index_get(buf, s) == 0x5d && *slice_index_get(buf, s + 1) == 0x1b
        && *slice_index_get(buf, s + 2) == 0x5b && *slice_index_get(buf, s + 3) == 0x33
        && *slice_index_get(buf, s + 4) == 0x39 && *slice_index_get(buf, s + 5) == 0x3b
        && *slice_index_get(buf, s + 6) == 0x34 && *slice_index_get(buf, s + 7) == 0x39
        && *slice_index_get(buf, s + 8) == 0x6d && *slice_index_get(buf, s + 9) == 0x20;
    proof {
        if m {
            assert(buf@.subrange(s as int, s + 10) =~= console_marker());
        } else {
            if buf@.subrange(s as int, s + 10) == console_marker() {
                assert(forall|k: int|
                    0 <= k < 10 ==> buf@.subrange(s as int, s + 10)[k] == #[trigger] buf@[
                        s + k
                    ]);
                assert(false);
            }
        }
    }
    m
}

/// Cut the command output out of one intercepted console write: the
/// bytes after the last prompt marker, or the whole write when no
/// marker occurs in it.
pub fn extract_command_output(buf: &[u8]) -> (r: Vec<u8>)
    ensures
        r@ == command_output_of(buf@),
{
    let n = buf.len();
    let mut cut: usize = 0;
    let mut found: bool = false;
    if n >= 10 {
        let mut j: usize = n - 9;
        while j > 0 && !found
            invariant
                j <= n - 9,
                n == buf@.len(),
                n >= 10,
                cut <= n,
                !found ==> cut == 0,
                !found ==> forall|k: int| k >= j ==> !marker_at(buf@, k),
                found ==> cut >= 10 && marker_at(buf@, cut - 10) && forall|k: int|
                    k > cut - 10 ==> !marker_at(buf@, k),
            decreases j,
        {
            if marker_match(buf, j - 1) {
                cut = j + 9;
                found = true;
            } else {
                proof {
                    assert forall|k: int| k >= j - 1 implies !marker_at(buf@, k) by {
                        if k >= j {
                        } else {
                            assert(k == j - 1);
                        }
                    }
                }
            }
            j = j - 1;
        }
    }
    proof {
        if found {
            lemma_command_output_last_marker(buf@, cut - 10);
        } else {
            assert forall|k: int| !marker_at(buf@, k) by {
                if n >= 10 {
                    assert(forall|k: int| k >= 0 ==> !marker_at(buf@, k));
                }
            }
            lemma_command_output_no_marker(buf@);
            assert(buf@.skip(0) =~= buf@);
        }
    }
    let mut r: Vec<u8> = Vec::new();
    let mut k: usize = cut;
    proof {
        assert(buf@.subrange(cut as int, cut as int) =~= Seq::<u8>::empty());
    }
    while k < n
        invariant
            cut <= k <= n,
            n == buf@.len(),
            r@ == buf@.subrange(cut as int, k as int),
        decreases n - k,
    {
        r.push(*slice_index_get(buf, k));
        proof {
            assert(buf@.subrange(cut as int, k + 1) =~= buf@.subrange(cut as int, k as int).push(
                buf@[k as int],
            ));
        }
        k = k + 1;
    }
    proof {
        assert(r@ =~= buf@.skip(cut as int));
    }
    r
}

proof fn lemma_encode_utf8_single(c: char)
    ensures
        encode_utf8(seq![c]) == encode_scalar(c as u32),
{
    assert(seq![c].drop_first() =~= Seq::<char>::empty());
    assert(encode_utf8(Seq::<char>::empty()) =~= Seq::<u8>::empty());
    assert(encode_utf8(seq![c]) =~= encode_scalar(c as u32));
}

proof fn lemma_encode_utf8_pair(c: char, d: char)
    ensures
        encode_utf8(seq![c, d]) == encode_scalar(c as u32) + encode_scalar(d as u32),
{
    assert(seq![c, d].drop_first() =~= seq![d]);
    lemma_encode_utf8_single(d);
    assert(encode_utf8(seq![c, d]) =~= encode_scalar(c as u32) + encode_scalar(d as u32));
}

proof fn lemma_encode_ascii_char(c: char, v: u8)
    requires
        c as u32 == v as u32,
        v < 0x80,
    ensures
        encode_scalar(c as u32) == seq![v],
{
    let s = c as u32;
    assert(s & 0x7F == s) by (bit_vector)
        requires
            s < 0x80,
    ;
    assert(encode_scalar(s) =~= seq![v]);
}

/// Whether an intercepted console print line is real output. The host
/// prints bare prompt fragments — a lone space, a `] ` prompt, a lone
/// newline — around command echoes; those are not forwarded to the line
/// channel.
pub fn should_forward_line(line: &str) -> (b: bool)
    ensures
        b == (line@ != " "@ && line@ != "] "@ && line@ != "\n"@),
{
    proof {
        reveal_strlit(" ");
        reveal_strlit("] ");
        reveal_strlit("\n");
        assert(" "@ =~= seq![' ']);
        assert("] "@ =~= seq![']', ' ']);
        assert("\n"@ =~= seq!['\n']);
        lemma_encode_utf8_single(' ');
        lemma_encode_utf8_single('\n');
        lemma_encode_utf8_pair(']', ' ');
        lemma_encode_ascii_char(' ', 0x20);
        lemma_encode_ascii_char(']', 0x5d);
        lemma_encode_ascii_char('\n', 0x0a);
        assert(encode_utf8(" "@) =~= seq![0x20u8]);
        assert(encode_utf8("] "@) =~= seq![0x5du8, 0x20u8]);
        assert(encode_utf8("\n"@) =~= seq![0x0au8]);
        vstd::utf8::encode_utf8_decode_utf8(line@);
        vstd::utf8::encode_utf8_decode_utf8(" "@);
        vstd::utf8::encode_utf8_decode_utf8("] "@);
        vstd::utf8::encode_utf8_decode_utf8("\n"@);
    }
    let bytes = line.as_bytes();
    let skip_space = bytes.len() == 1 && *slice_index_get(bytes, 0) == 0x20;
    let skip_prompt = bytes.len() == 2 && *slice_index_get(bytes, 0) == 0x5d && *slice_index_get(
        bytes,
        1,
    ) == 0x20;
    let skip_newline = bytes.len() == 1 && *slice_index_get(bytes, 0) == 0x0a;
    proof {
        if skip_space {
            assert(bytes@ =~= encode_utf8(" "@));
        }
        if skip_prompt {
            assert(bytes@ =~= encode_utf8("] "@));
        }
        if skip_newline {
            assert(bytes@ =~= encode_utf8("\n"@));
        }
    }
    !(skip_space || skip_prompt || skip_newline)
}

} // verus!
