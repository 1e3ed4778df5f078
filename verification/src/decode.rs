//! Streaming response decoder.
//!
//! A response body arrives as a sequence of text chunks whose boundaries are
//! chosen by the transport. Each chunk is reframed independently: it is split
//! on the two-character sequence CR LF, and only lines that were terminated by
//! CR LF inside the chunk count (a trailing unterminated remainder is
//! discarded, so framing split across a chunk boundary is dropped rather than
//! reassembled). A line carrying the prefix `data: ` contributes its payload
//! as one output fragment; an empty payload stands for a line break and
//! becomes a single newline character; the sentinel payload `[DONE]` marks
//! logical end-of-content and is dropped. Lines without the prefix contribute
//! nothing.

use vstd::prelude::*;

verus! {

/// The line prefix that marks a payload-carrying line: `data: `.
pub open spec fn data_prefix() -> Seq<char> {
    seq!['d', 'a', 't', 'a', ':', ' ']
}

/// The sentinel payload that signals logical end-of-content: `[DONE]`.
pub open spec fn done_marker() -> Seq<char> {
    seq!['[', 'D', 'O', 'N', 'E', ']']
}

/// The lines of `s` that are terminated by CR LF, scanned left to right with
/// `cur` holding the partial line read so far. The remainder after the last
/// CR LF (or the whole text, if no CR LF occurs) is discarded.
pub open spec fn lines_from(s: Seq<char>, cur: Seq<char>) -> Seq<Seq<char>>
    decreases s.len(),
{
    if s.len() >= 2 && s[0] == '\r' && s[1] == '\n' {
        seq![cur] + lines_from(s.skip(2), Seq::empty())
    } else if s.len() == 0 {
        Seq::empty()
    } else {
        lines_from(s.skip(1), cur.push(s[0]))
    }
}

/// The CR-LF-terminated lines of `s`, in order.
pub open spec fn spec_lines(s: Seq<char>) -> Seq<Seq<char>> {
    lines_from(s, Seq::empty())
}

/// The fragment contributed by one line, if any: the payload after `data: `,
/// with an empty payload standing for a line break and the `[DONE]` sentinel
/// dropped. A line without the prefix contributes nothing.
pub open spec fn frag_of_line(l: Seq<char>) -> Option<Seq<char>> {
    if l.len() >= 6 && l.subrange(0, 6) == data_prefix() {
        let payload = l.skip(6);
        if payload.len() == 0 {
            Some(seq!['\n'])
        } else if payload == done_marker() {
            None
        } else {
            Some(payload)
        }
    } else {
        None
    }
}

/// The fragments contributed by a sequence of lines, in line order.
pub open spec fn frags_of_lines(ls: Seq<Seq<char>>) -> Seq<Seq<char>>
    decreases ls.len(),
{
    if ls.len() == 0 {
        Seq::empty()
    } else {
        match frag_of_line(ls[0]) {
            Some(f) => seq![f] + frags_of_lines(ls.skip(1)),
            None => frags_of_lines(ls.skip(1)),
        }
    }
}

/// The fragments decoded from one chunk.
pub open spec fn spec_decode_chunk(s: Seq<char>) -> Seq<Seq<char>> {
    frags_of_lines(spec_lines(s))
}

/// The fragments decoded from a sequence of chunks: each chunk is reframed
/// independently, and the per-chunk fragment lists are concatenated in
/// arrival order.
pub open spec fn spec_decode_chunks(cs: Seq<Seq<char>>) -> Seq<Seq<char>>
    decreases cs.len(),
{
    if cs.len() == 0 {
        Seq::empty()
    } else {
        spec_decode_chunk(cs[0]) + spec_decode_chunks(cs.skip(1))
    }
}

/// Decode one chunk into its text fragments.
///
/// The chunk is reframed on its own: only lines terminated by CR LF inside
/// this chunk are considered, each `data: ` line contributes its payload (an
/// empty payload becomes one newline character), the `[DONE]` sentinel is
/// dropped, and fragments come out in line order.
pub fn decode_chunk(chunk: &str) -> (frags: Vec<String>)
    ensures
        frags@.map_values(|f: String| f@) == spec_decode_chunk(chunk@),
{
    let n: usize = chunk.unicode_len();
    let mut frags: Vec<String> = Vec::new();
    let mut i: usize = 0;
    let mut j: usize = 0;
    proof {
        assert(chunk@.skip(0) =~= chunk@);
        assert(chunk@.subrange(0, 0) =~= Seq::<char>::empty());
        assert(frags@.map_values(|f: String| f@) =~= Seq::<Seq<char>>::empty());
        assert(Seq::<Seq<char>>::empty() + spec_decode_chunk(chunk@) =~= spec_decode_chunk(
            chunk@,
        ));
    }
    while j < n
        invariant
            i <= j <= n,
            n == chunk@.len(),
            spec_decode_chunk(chunk@) == frags@.map_values(|f: String| f@) + frags_of_lines(
                lines_from(chunk@.skip(j as int), chunk@.subrange(i as int, j as int)),
            ),
        decreases n - j,
    {
        if j + 1 < n && chunk.get_char(j) == '\r' && chunk.get_char(j + 1) == '\n' {
            let ghost cur = chunk@.subrange(i as int, j as int);
            let ghost rest = lines_from(chunk@.skip(j as int + 2), Seq::<char>::empty());
            proof {
                let s = chunk@.skip(j as int);
                assert(s[0] == chunk@[j as int]);
                assert(s[1] == chunk@[j as int + 1]);
                assert(s.skip(2) =~= chunk@.skip(j as int + 2));
                assert(lines_from(s, cur) == seq![cur] + lines_from(s.skip(2), Seq::empty()));
                let ls = seq![cur] + rest;
                assert(ls[0] == cur);
                assert(ls.skip(1) =~= rest);
            }
            let line_len = j - i;
            let is_data = line_len >= 6 && chunk.get_char(i) == 'd' && chunk.get_char(i + 1) == 'a'
                && chunk.get_char(i + 2) == 't' && chunk.get_char(i + 3) == 'a' && chunk.get_char(
                i + 4,
            ) == ':' && chunk.get_char(i + 5) == ' ';
            proof {
                if cur.len() >= 6 {
                    assert(cur[0] == chunk@[i as int]);
                    assert(cur[1] == chunk@[i as int + 1]);
                    assert(cur[2] == chunk@[i as int + 2]);
                    assert(cur[3] == chunk@[i as int + 3]);
                    assert(cur[4] == chunk@[i as int + 4]);
                    assert(cur[5] == chunk@[i as int + 5]);
                    if is_data {
                        assert(cur.subrange(0, 6) =~= data_prefix());
                    } else {
                        assert(cur.subrange(0, 6)[0] == cur[0]);
                        assert(cur.subrange(0, 6)[1] == cur[1]);
                        assert(cur.subrange(0, 6)[2] == cur[2]);
                        assert(cur.subrange(0, 6)[3] == cur[3]);
                        assert(cur.subrange(0, 6)[4] == cur[4]);
                        assert(cur.subrange(0, 6)[5] == cur[5]);
                        assert(cur.subrange(0, 6) != data_prefix());
                    }
                }
            }
            if is_data {
                if line_len == 6 {
                    proof {
                        reveal_strlit("\n");
                        assert("\n"@ =~= seq!['\n']);
                        assert(cur.skip(6).len() == 0);
                        assert(frag_of_line(cur) == Some(seq!['\n']));
                    }
                    push_frag(&mut frags, "\n".to_owned(), Ghost(cur), Ghost(rest));
                } else {
                    let payload = chunk.substring_char(i + 6, j);
                    proof {
                        assert(payload@ =~= cur.skip(6));
                    }
                    let plen = line_len - 6;
                    let is_done = plen == 6 && chunk.get_char(i + 6) == '[' && chunk.get_char(
                        i + 7,
                    ) == 'D' && chunk.get_char(i + 8) == 'O' && chunk.get_char(i + 9) == 'N'
                        && chunk.get_char(i + 10) == 'E' && chunk.get_char(i + 11) == ']';
                    proof {
                        assert(payload@[0] == chunk@[i as int + 6]);
                        if payload@.len() >= 6 {
                            assert(payload@[1] == chunk@[i as int + 7]);
                            assert(payload@[2] == chunk@[i as int + 8]);
                            assert(payload@[3] == chunk@[i as int + 9]);
                            assert(payload@[4] == chunk@[i as int + 10]);
                            assert(payload@[5] == chunk@[i as int + 11]);
                        }
                        if is_done {
                            assert(payload@ =~= done_marker());
                            assert(frag_of_line(cur) is None);
                        } else {
                            assert(payload@ != done_marker());
                            assert(frag_of_line(cur) == Some(payload@));
                        }
                    }
                    if !is_done {
                        push_frag(&mut frags, payload.to_owned(), Ghost(cur), Ghost(rest));
                    }
                }
            } else {
                proof {
                    assert(frag_of_line(cur) is None);
                }
            }
            j = j + 2;
            i = j;
            proof {
                assert(chunk@.subrange(i as int, j as int) =~= Seq::<char>::empty());
            }
        } else {
            proof {
                let s = chunk@.skip(j as int);
                assert(s.len() > 0);
                assert(s[0] == chunk@[j as int]);
                if s.len() >= 2 {
                    assert(s[1] == chunk@[j as int + 1]);
                }
                assert(s.skip(1) =~= chunk@.skip(j as int + 1));
                assert(chunk@.subrange(i as int, j as int).push(chunk@[j as int]) =~= chunk@.subrange(
                    i as int,
                    j as int + 1,
                ));
            }
            j = j + 1;
        }
    }
    proof {
        assert(chunk@.skip(j as int).len() == 0);
        assert(frags@.map_values(|f: String| f@) + Seq::<Seq<char>>::empty() =~= frags@.map_values(
            |f: String| f@,
        ));
    }
    frags
}

/// Append one decoded fragment, keeping the running fragment list aligned with
/// the specification of the lines still to be processed.
fn push_frag(frags: &mut Vec<String>, f: String, Ghost(cur): Ghost<Seq<char>>, Ghost(rest): Ghost<
    Seq<Seq<char>>,
>)
    requires
        frag_of_line(cur) == Some(f@),
    ensures
        final(frags)@ == old(frags)@.push(f),
        final(frags)@.map_values(|g: String| g@) + frags_of_lines(rest) == old(frags)@.map_values(
            |g: String| g@,
        ) + frags_of_lines(seq![cur] + rest),
{
    proof {
        let ls = seq![cur] + rest;
        assert(ls[0] == cur);
        assert(ls.skip(1) =~= rest);
        assert(frags_of_lines(ls) == seq![f@] + frags_of_lines(rest));
        assert(old(frags)@.push(f).map_values(|g: String| g@) + frags_of_lines(rest) =~= old(
            frags,
        )@.map_values(|g: String| g@) + (seq![f@] + frags_of_lines(rest)));
    }
    frags.push(f);
}

/// Decode a sequence of chunks: each chunk is reframed on its own and the
/// per-chunk fragment lists are concatenated in arrival order.
pub fn decode_chunks(chunks: &Vec<String>) -> (frags: Vec<String>)
    ensures
        frags@.map_values(|f: String| f@) == spec_decode_chunks(
            chunks@.map_values(|c: String| c@),
        ),
{
    let ghost cs = chunks@.map_values(|c: String| c@);
    let mut frags: Vec<String> = Vec::new();
    let mut k: usize = 0;
    proof {
        assert(cs.skip(0) =~= cs);
        assert(Seq::<Seq<char>>::empty() + spec_decode_chunks(cs) =~= spec_decode_chunks(cs));
        assert(frags@.map_values(|f: String| f@) =~= Seq::<Seq<char>>::empty());
    }
    while k < chunks.len()
        invariant
            k <= chunks.len(),
            cs == chunks@.map_values(|c: String| c@),
            spec_decode_chunks(cs) == frags@.map_values(|f: String| f@) + spec_decode_chunks(
                cs.skip(k as int),
            ),
        decreases chunks.len() - k,
    {
        let mut part = decode_chunk(chunks[k].as_str());
        proof {
            let s = cs.skip(k as int);
            assert(s[0] == cs[k as int]);
            assert(s.skip(1) =~= cs.skip(k as int + 1));
            assert(spec_decode_chunks(s) == spec_decode_chunk(cs[k as int])
                + spec_decode_chunks(cs.skip(k as int + 1)));
            assert((frags@ + part@).map_values(|f: String| f@) =~= frags@.map_values(
                |f: String| f@,
            ) + part@.map_values(|f: String| f@));
            assert(frags@.map_values(|f: String| f@) + (spec_decode_chunk(cs[k as int])
                + spec_decode_chunks(cs.skip(k as int + 1))) =~= (frags@.map_values(
                |f: String| f@,
            ) + spec_decode_chunk(cs[k as int])) + spec_decode_chunks(cs.skip(k as int + 1)));
        }
        frags.append(&mut part);
        k = k + 1;
    }
    proof {
        assert(cs.skip(k as int).len() == 0);
        assert(frags@.map_values(|f: String| f@) + Seq::<Seq<char>>::empty() =~= frags@.map_values(
            |f: String| f@,
        ));
    }
    frags
}

/// True when the text contains no CR LF pair, so that it sits inside a
/// single line.
pub open spec fn no_crlf_in(l: Seq<char>) -> bool {
    forall|i: int| #![trigger l[i]] 0 <= i && i + 1 < l.len() ==> !(l[i] == '\r' && l[i + 1] == '\n')
}

/// Scanning a text that starts with a CR-LF-terminated unbroken stretch `l`
/// yields the accumulated line `cur + l` first, then the lines of the rest.
proof fn lemma_lines_from_terminated(l: Seq<char>, rest: Seq<char>, cur: Seq<char>)
    requires
        no_crlf_in(l),
    ensures
        lines_from(l + seq!['\r', '\n'] + rest, cur) == seq![cur + l] + spec_lines(rest),
    decreases l.len(),
{
    let s = l + seq!['\r', '\n'] + rest;
    if l.len() == 0 {
        assert(s[0] == '\r');
        assert(s[1] == '\n');
        assert(s.skip(2) =~= rest);
        assert(lines_from(s, cur) == seq![cur] + lines_from(rest, Seq::empty()));
        assert(cur + l =~= cur);
    } else {
        assert(s[0] == l[0]);
        if l.len() >= 2 {
            assert(s[1] == l[1]);
            assert(!(l[0] == '\r' && l[1] == '\n'));
        } else {
            assert(s[1] == '\r');
        }
        assert(s.skip(1) =~= l.skip(1) + seq!['\r', '\n'] + rest);
        assert(no_crlf_in(l.skip(1))) by {
            assert forall|i: int|
                0 <= i && i + 1 < l.skip(1).len() implies !(#[trigger] l.skip(1)[i] == '\r'
                && l.skip(1)[i + 1] == '\n') by {
                assert(l.skip(1)[i] == l[i + 1]);
                assert(l.skip(1)[i + 1] == l[i + 2]);
            }
        }
        lemma_lines_from_terminated(l.skip(1), rest, cur.push(l[0]));
        assert(cur.push(l[0]) + l.skip(1) =~= cur + l);
    }
}

/// Splitting on CR LF takes the first terminated line off the front: a text
/// that starts with an unbroken stretch `l` followed by CR LF has `l` as its
/// first line, followed by the lines of what comes after the terminator.
pub proof fn lemma_lines_split_first(l: Seq<char>, rest: Seq<char>)
    requires
        no_crlf_in(l),
    ensures
        spec_lines(l + seq!['\r', '\n'] + rest) == seq![l] + spec_lines(rest),
{
    lemma_lines_from_terminated(l, rest, Seq::empty());
    assert(Seq::<char>::empty() + l =~= l);
}

/// Decoding takes `data: ` lines one at a time off the front of a chunk: a
/// chunk that starts with a CR-LF-terminated `data: ` line whose payload is
/// `p` yields exactly one fragment equal to `p` first — with an empty `p`
/// standing for one newline character, and the `[DONE]` sentinel yielding
/// nothing — followed by the fragments of the remainder of the chunk.
pub proof fn lemma_decode_data_line(p: Seq<char>, rest: Seq<char>)
    requires
        no_crlf_in(p),
    ensures
        spec_decode_chunk(data_prefix() + p + seq!['\r', '\n'] + rest) == (if p.len() == 0 {
            seq![seq!['\n']]
        } else if p == done_marker() {
            Seq::<Seq<char>>::empty()
        } else {
            seq![p]
        }) + spec_decode_chunk(rest),
{
    let l = data_prefix() + p;
    assert(no_crlf_in(l)) by {
        assert forall|i: int|
            0 <= i && i + 1 < l.len() implies !(#[trigger] l[i] == '\r' && l[i + 1] == '\n') by {
            if i < 6 {
                assert(l[i] != '\r');
            } else {
                assert(l[i] == p[i - 6]);
                assert(l[i + 1] == p[i - 5]);
            }
        }
    }
    lemma_lines_from_terminated(l, rest, Seq::empty());
    assert(Seq::<char>::empty() + l =~= l);
    let ls = seq![l] + spec_lines(rest);
    assert(ls[0] == l);
    assert(ls.skip(1) =~= spec_lines(rest));
    assert(l.subrange(0, 6) =~= data_prefix());
    assert(l.skip(6) =~= p);
    match frag_of_line(l) {
        Some(f) => {
            assert(frags_of_lines(ls) == seq![f] + frags_of_lines(spec_lines(rest)));
        },
        None => {},
    }
}

/// Two consecutive empty `data: ` lines at the front of a chunk yield two
/// fragments, each equal to the single newline character, before the
/// fragments of the remainder of the chunk.
pub proof fn lemma_two_empty_data_lines(rest: Seq<char>)
    ensures
        spec_decode_chunk(
            data_prefix() + seq!['\r', '\n'] + data_prefix() + seq!['\r', '\n'] + rest,
        ) == seq![seq!['\n'], seq!['\n']] + spec_decode_chunk(rest),
{
    let crlf = seq!['\r', '\n'];
    let inner = data_prefix() + crlf + rest;
    assert(no_crlf_in(Seq::<char>::empty()));
    assert(data_prefix() + Seq::<char>::empty() =~= data_prefix());
    lemma_decode_data_line(Seq::empty(), inner);
    lemma_decode_data_line(Seq::empty(), rest);
    assert((data_prefix() + crlf) + inner =~= data_prefix() + crlf + data_prefix() + crlf + rest);
    assert(seq![seq!['\n']] + (seq![seq!['\n']] + spec_decode_chunk(rest)) =~= seq![
        seq!['\n'],
        seq!['\n'],
    ] + spec_decode_chunk(rest));
}

/// No line ever contributes the `[DONE]` sentinel as a fragment.
proof fn lemma_frags_never_done(ls: Seq<Seq<char>>)
    ensures
        forall|k: int|
            0 <= k < frags_of_lines(ls).len() ==> frags_of_lines(ls)[k] != done_marker(),
    decreases ls.len(),
{
    if ls.len() == 0 {
    } else {
        lemma_frags_never_done(ls.skip(1));
        match frag_of_line(ls[0]) {
            Some(f) => {
                assert(f != done_marker());
                assert(frags_of_lines(ls) == seq![f] + frags_of_lines(ls.skip(1)));
            },
            None => {},
        }
    }
}

/// The `[DONE]` sentinel never appears among the fragments decoded from a
/// chunk, whatever surrounds it.
pub proof fn lemma_done_never_in_chunk(s: Seq<char>)
    ensures
        forall|k: int|
            0 <= k < spec_decode_chunk(s).len() ==> spec_decode_chunk(s)[k] != done_marker(),
{
    lemma_frags_never_done(spec_lines(s));
}

/// The `[DONE]` sentinel never appears among the fragments decoded from any
/// sequence of chunks.
pub proof fn lemma_done_never_emitted(cs: Seq<Seq<char>>)
    ensures
        forall|k: int|
            0 <= k < spec_decode_chunks(cs).len() ==> spec_decode_chunks(cs)[k] != done_marker(),
    decreases cs.len(),
{
    if cs.len() == 0 {
    } else {
        lemma_done_never_in_chunk(cs[0]);
        lemma_done_never_emitted(cs.skip(1));
        assert(spec_decode_chunks(cs) == spec_decode_chunk(cs[0]) + spec_decode_chunks(
            cs.skip(1),
        ));
    }
}

/// Decoding distributes over concatenation of chunk sequences: the fragments
/// of earlier chunks come first and each chunk's fragments keep their line
/// order, so the overall output order is stable.
pub proof fn lemma_decode_chunks_concat(a: Seq<Seq<char>>, b: Seq<Seq<char>>)
    ensures
        spec_decode_chunks(a + b) == spec_decode_chunks(a) + spec_decode_chunks(b),
    decreases a.len(),
{
    if a.len() == 0 {
        assert(a + b =~= b);
        assert(spec_decode_chunks(a) + spec_decode_chunks(b) =~= spec_decode_chunks(b));
    } else {
        lemma_decode_chunks_concat(a.skip(1), b);
        assert((a + b).skip(1) =~= a.skip(1) + b);
        assert((a + b)[0] == a[0]);
        assert((a + b).len() > 0);
        assert(spec_decode_chunk(a[0]) + (spec_decode_chunks(a.skip(1)) + spec_decode_chunks(b))
            =~= (spec_decode_chunk(a[0]) + spec_decode_chunks(a.skip(1))) + spec_decode_chunks(b));
    }
}

} // verus!
