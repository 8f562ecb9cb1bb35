use vstd::prelude::*;
use crate::config::{find_byte_from, lemma_find_off, lemma_find_off_at, lemma_find_off_none, spec_find_off};

verus! {

/// The closed set of requests a connection can carry, keyed on its
/// first byte alone.
#[derive(Clone, Copy, PartialEq, Eq, Structural, Debug)]
pub enum Request {
    /// First byte NUL: write the tracked titles back on the connection.
    QueryTitles,
    /// First byte 'r': reload the registry, re-run autospawn, rebind the
    /// reconciler to the new snapshot.
    Reload,
    /// Anything else, or an empty stream: log and close without response.
    Unknown,
}

/// What the bytes read from a connection ask for.
pub open spec fn spec_classify(buf: Seq<u8>) -> Request {
    if buf.len() >= 1 && buf[0] == 0 {
        Request::QueryTitles
    } else if buf.len() >= 1 && buf[0] == 114 {
        Request::Reload
    } else {
        Request::Unknown
    }
}

/// Key a connection's request on the first byte read from it.
pub fn classify_request(buf: &Vec<u8>) -> (r: Request)
    ensures
        r == spec_classify(buf@),
{
    if buf.len() == 0 {
        Request::Unknown
    } else if buf[0] == 0 {
        Request::QueryTitles
    } else if buf[0] == 114 {
        Request::Reload
    } else {
        Request::Unknown
    }
}

/// A title's bytes as they stand on the wire, between the quotes: the
/// double-quote byte is written `\q` and the backslash `\\`, so that no
/// double-quote byte ever stands inside a quoted title.
pub open spec fn spec_escape(t: Seq<u8>) -> Seq<u8>
    decreases t.len(),
{
    if t.len() == 0 {
        Seq::empty()
    } else if t[0] == 34 {
        seq![92u8, 113u8] + spec_escape(t.skip(1))
    } else if t[0] == 92 {
        seq![92u8, 92u8] + spec_escape(t.skip(1))
    } else {
        seq![t[0]] + spec_escape(t.skip(1))
    }
}

/// The inverse reading: after a backslash, `q` stands for the
/// double-quote byte and any other byte for itself.
pub open spec fn spec_unescape(t: Seq<u8>) -> Seq<u8>
    decreases t.len(),
{
    if t.len() == 0 {
        Seq::empty()
    } else if t[0] == 92 && t.len() >= 2 {
        let b: u8 = if t[1] == 113 { 34u8 } else { t[1] };
        seq![b] + spec_unescape(t.skip(2))
    } else {
        seq![t[0]] + spec_unescape(t.skip(1))
    }
}

/// Escaping leaves no double-quote byte behind.
pub proof fn lemma_escape_no_quote(t: Seq<u8>)
    ensures
        forall|k: int| 0 <= k < spec_escape(t).len() ==> spec_escape(t)[k] != 34u8,
        !spec_escape(t).contains(34u8),
    decreases t.len(),
{
    if t.len() > 0 {
        lemma_escape_no_quote(t.skip(1));
    }
}

/// Unescaping inverts escaping: the wire form of a title reads back as
/// the title itself, whatever bytes it holds.
pub proof fn lemma_unescape_escape(t: Seq<u8>)
    ensures
        spec_unescape(spec_escape(t)) == t,
    decreases t.len(),
{
    if t.len() > 0 {
        lemma_unescape_escape(t.skip(1));
        if t[0] == 34 || t[0] == 92 {
            assert((seq![92u8, if t[0] == 34 { 113u8 } else { 92u8 }]
                + spec_escape(t.skip(1))).skip(2) =~= spec_escape(t.skip(1)));
            assert(spec_unescape(spec_escape(t)) =~= seq![t[0]] + t.skip(1));
        } else {
            assert((seq![t[0]] + spec_escape(t.skip(1))).skip(1) =~= spec_escape(t.skip(1)));
            if spec_escape(t)[0] == 92 && spec_escape(t).len() >= 2 {
                assert(spec_escape(t)[0] == t[0]);
            }
            assert(spec_unescape(spec_escape(t)) =~= seq![t[0]] + t.skip(1));
        }
        assert(seq![t[0]] + t.skip(1) =~= t);
    }
}

/// Escape a title for the wire as `spec_escape` describes it.
fn escape_bytes(t: &Vec<u8>) -> (r: Vec<u8>)
    ensures
        r@ == spec_escape(t@),
{
    let mut out: Vec<u8> = Vec::new();
    let mut i: usize = 0;
    proof {
        assert(t@.skip(0) =~= t@);
        assert(out@ + spec_escape(t@) =~= spec_escape(t@));
    }
    while i < t.len()
        invariant
            i <= t@.len(),
            spec_escape(t@) == out@ + spec_escape(t@.skip(i as int)),
        decreases t@.len() - i,
    {
        let ghost pre = out@;
        proof {
            assert(t@.skip(i as int)[0] == t@[i as int]);
            assert(t@.skip(i as int).skip(1) =~= t@.skip(i as int + 1));
        }
        let b = t[i];
        if b == 34 {
            out.push(92);
            out.push(113);
            proof {
                assert(out@ =~= pre + seq![92u8, 113u8]);
            }
        } else if b == 92 {
            out.push(92);
            out.push(92);
            proof {
                assert(out@ =~= pre + seq![92u8, 92u8]);
            }
        } else {
            out.push(b);
            proof {
                assert(out@ =~= pre + seq![t@[i as int]]);
            }
        }
        proof {
            assert(out@ + spec_escape(t@.skip(i as int + 1))
                =~= pre + spec_escape(t@.skip(i as int)));
        }
        i += 1;
    }
    proof {
        assert(spec_escape(t@.skip(t@.len() as int)) =~= Seq::<u8>::empty());
        assert(out@ + Seq::<u8>::empty() =~= out@);
    }
    out
}

/// Read a title back out of its wire form as `spec_unescape` describes it.
fn unescape_bytes(t: &Vec<u8>) -> (r: Vec<u8>)
    ensures
        r@ == spec_unescape(t@),
{
    let mut out: Vec<u8> = Vec::new();
    let mut i: usize = 0;
    proof {
        assert(t@.skip(0) =~= t@);
        assert(out@ + spec_unescape(t@) =~= spec_unescape(t@));
    }
    while i < t.len()
        invariant
            i <= t@.len(),
            spec_unescape(t@) == out@ + spec_unescape(t@.skip(i as int)),
        decreases t@.len() - i,
    {
        let ghost pre = out@;
        proof {
            assert(t@.skip(i as int)[0] == t@[i as int]);
            assert(t@.skip(i as int).skip(1) =~= t@.skip(i as int + 1));
            if t@.len() - i >= 2 {
                assert(t@.skip(i as int)[1] == t@[i as int + 1]);
                assert(t@.skip(i as int).skip(2) =~= t@.skip(i as int + 2));
            }
        }
        let b = t[i];
        if b == 92 && i + 1 < t.len() {
            let c = t[i + 1];
            out.push(if c == 113 { 34 } else { c });
            proof {
                assert(out@ =~= pre + seq![if t@[i as int + 1] == 113 { 34u8 } else {
                    t@[i as int + 1]
                }]);
                assert(out@ + spec_unescape(t@.skip(i as int + 2))
                    =~= pre + spec_unescape(t@.skip(i as int)));
            }
            i += 2;
        } else {
            out.push(b);
            proof {
                assert(out@ =~= pre + seq![t@[i as int]]);
                assert(out@ + spec_unescape(t@.skip(i as int + 1))
                    =~= pre + spec_unescape(t@.skip(i as int)));
            }
            i += 1;
        }
    }
    proof {
        assert(spec_unescape(t@.skip(t@.len() as int)) =~= Seq::<u8>::empty());
        assert(out@ + Seq::<u8>::empty() =~= out@);
    }
    out
}

/// The textual encoding of the tracked titles from index `i` on, without
/// the surrounding brackets: each title in double quotes, titles
/// separated by a comma and a space.
pub open spec fn spec_encode_items(ts: Seq<Seq<u8>>, i: int) -> Seq<u8>
    decreases ts.len() - i,
{
    if i < 0 || i >= ts.len() {
        Seq::empty()
    } else if i + 1 < ts.len() {
        seq![34u8] + ts[i] + seq![34u8, 44u8, 32u8] + spec_encode_items(ts, i + 1)
    } else {
        seq![34u8] + ts[i] + seq![34u8]
    }
}

/// The textual encoding of the tracked titles that a query connection is
/// answered with: the quoted titles, comma-separated, in brackets.
pub open spec fn spec_encode_titles(ts: Seq<Seq<u8>>) -> Seq<u8> {
    seq![91u8] + spec_encode_items(ts, 0) + seq![93u8]
}

/// Each title escaped for the wire.
pub open spec fn spec_escape_all(ts: Seq<Seq<u8>>) -> Seq<Seq<u8>> {
    ts.map_values(|t: Seq<u8>| spec_escape(t))
}

/// Each wire segment read back as a title.
pub open spec fn spec_unescape_all(ss: Seq<Seq<u8>>) -> Seq<Seq<u8>> {
    ss.map_values(|t: Seq<u8>| spec_unescape(t))
}

/// The full response to a query: the titles, each escaped, then quoted,
/// comma-separated and bracketed.
pub open spec fn spec_titles_response(ts: Seq<Seq<u8>>) -> Seq<u8> {
    spec_encode_titles(spec_escape_all(ts))
}

/// The titles a response's bytes read back as: the byte strings between
/// successive quote pairs, each unescaped.
pub open spec fn spec_read_titles(buf: Seq<u8>) -> Seq<Seq<u8>> {
    spec_unescape_all(spec_decode_items(buf, 0))
}

/// Encode the tracked titles as `spec_titles_response` describes it.
pub fn encode_titles(ts: &Vec<Vec<u8>>) -> (r: Vec<u8>)
    ensures
        r@ == spec_titles_response(ts.deep_view()),
{
    let ghost es = spec_escape_all(ts.deep_view());
    let mut out: Vec<u8> = Vec::new();
    out.push(91);
    let mut i: usize = 0;
    proof {
        assert(out@ =~= seq![91u8]);
    }
    while i < ts.len()
        invariant
            i <= ts@.len(),
            es == spec_escape_all(ts.deep_view()),
            seq![91u8] + spec_encode_items(es, 0) == out@ + spec_encode_items(es, i as int),
        decreases ts@.len() - i,
    {
        let ghost pre = out@;
        proof {
            assert(ts.deep_view()[i as int] =~= ts@[i as int]@);
            assert(es[i as int] == spec_escape(ts@[i as int]@));
        }
        out.push(34);
        let esc = escape_bytes(&ts[i]);
        crate::append_bytes(&mut out, &esc);
        out.push(34);
        if i + 1 < ts.len() {
            out.push(44);
            out.push(32);
            proof {
                assert(out@ =~= pre + (seq![34u8] + es[i as int] + seq![34u8, 44u8, 32u8]));
                assert(out@ + spec_encode_items(es, i as int + 1)
                    =~= pre + spec_encode_items(es, i as int));
            }
        } else {
            proof {
                assert(out@ =~= pre + (seq![34u8] + es[i as int] + seq![34u8]));
                assert(out@ + spec_encode_items(es, i as int + 1)
                    =~= pre + spec_encode_items(es, i as int));
            }
        }
        i += 1;
    }
    proof {
        assert(out@ + spec_encode_items(es, i as int) =~= out@);
    }
    out.push(93);
    proof {
        assert(out@ =~= spec_titles_response(ts.deep_view()));
    }
    out
}

/// The titles read back out of an encoded response from index `i` on:
/// the byte strings standing between successive pairs of double quotes.
pub open spec fn spec_decode_items(buf: Seq<u8>, i: int) -> Seq<Seq<u8>>
    decreases buf.len() - i,
    via spec_decode_items_decreases
{
    if i < 0 || i >= buf.len() {
        Seq::empty()
    } else {
        match spec_find_off(buf, 34u8, i) {
            None => Seq::empty(),
            Some(oj) => {
                match spec_find_off(buf, 34u8, i + oj + 1) {
                    None => Seq::empty(),
                    Some(ok) => seq![buf.subrange(i + oj + 1, i + oj + 1 + ok)]
                        + spec_decode_items(buf, i + oj + 1 + ok + 1),
                }
            },
        }
    }
}

#[via_fn]
proof fn spec_decode_items_decreases(buf: Seq<u8>, i: int) {
    if 0 <= i < buf.len() {
        lemma_find_off(buf, 34u8, i);
        if spec_find_off(buf, 34u8, i) is Some {
            let oj = spec_find_off(buf, 34u8, i)->Some_0;
            lemma_find_off(buf, 34u8, i + oj + 1);
        }
    }
}

/// Read the quoted titles back out of an encoded response, unescaping
/// each as it comes.
pub fn decode_titles(buf: &Vec<u8>) -> (r: Vec<Vec<u8>>)
    ensures
        r.deep_view() == spec_read_titles(buf@),
{
    let mut out: Vec<Vec<u8>> = Vec::new();
    let mut i: usize = 0;
    proof {
        assert(out.deep_view() + spec_unescape_all(spec_decode_items(buf@, 0))
            =~~= spec_unescape_all(spec_decode_items(buf@, 0)));
    }
    while i < buf.len()
        invariant
            i <= buf@.len(),
            spec_unescape_all(spec_decode_items(buf@, 0))
                == out.deep_view() + spec_unescape_all(spec_decode_items(buf@, i as int)),
        decreases buf@.len() - i,
    {
        let ghost pre = out.deep_view();
        match find_byte_from(buf, 34, i) {
            None => {
                proof {
                    assert(spec_unescape_all(spec_decode_items(buf@, i as int))
                        =~~= Seq::<Seq<u8>>::empty());
                    assert(out.deep_view() + Seq::<Seq<u8>>::empty() =~~= out.deep_view());
                }
                return out;
            },
            Some(j) => {
                match find_byte_from(buf, 34, j + 1) {
                    None => {
                        proof {
                            assert(spec_find_off(buf@, 34u8, i as int + (j - i) + 1) is None);
                            assert(spec_unescape_all(spec_decode_items(buf@, i as int))
                                =~~= Seq::<Seq<u8>>::empty());
                            assert(out.deep_view() + Seq::<Seq<u8>>::empty()
                                =~~= out.deep_view());
                        }
                        return out;
                    },
                    Some(k) => {
                        let seg = crate::subvec(buf, j + 1, k);
                        let t = unescape_bytes(&seg);
                        out.push(t);
                        proof {
                            let oj = (j - i) as nat;
                            let ok = (k - (j + 1)) as nat;
                            assert(spec_find_off(buf@, 34u8, i as int) == Some(oj));
                            assert(spec_find_off(buf@, 34u8, i as int + oj + 1) == Some(ok));
                            assert(i as int + oj + 1 == j + 1);
                            assert(i as int + oj + 1 + ok == k as int);
                            assert(out.deep_view()
                                =~~= pre + seq![spec_unescape(buf@.subrange(j + 1, k as int))]);
                            assert(out.deep_view()
                                + spec_unescape_all(spec_decode_items(buf@, k as int + 1))
                                =~~= pre + spec_unescape_all(spec_decode_items(buf@, i as int)));
                        }
                        i = k + 1;
                    },
                }
            },
        }
    }
    proof {
        assert(spec_unescape_all(spec_decode_items(buf@, i as int))
            =~~= Seq::<Seq<u8>>::empty());
        assert(out.deep_view() + Seq::<Seq<u8>>::empty() =~~= out.deep_view());
    }
    out
}

/// Decoding recovers the titles behind any quote-free lead-in: when the
/// bytes of `buf` from `p` on spell a quote-free separator, then the
/// encoded titles from index `k` on, then the closing bracket, decoding
/// from `p` yields exactly those titles.
proof fn lemma_decode_suffix(buf: Seq<u8>, p: int, sep: Seq<u8>, ts: Seq<Seq<u8>>, k: int)
    requires
        0 <= k <= ts.len(),
        0 <= p <= buf.len(),
        !sep.contains(34u8),
        buf.subrange(p, buf.len() as int) == sep + spec_encode_items(ts, k) + seq![93u8],
        forall|i: int| k <= i < ts.len() ==> !(#[trigger] ts[i]).contains(34u8),
    ensures
        spec_decode_items(buf, p) == ts.skip(k),
    decreases ts.len() - k,
{
    let suffix = sep + spec_encode_items(ts, k) + seq![93u8];
    assert(buf.len() - p == suffix.len());
    assert(forall|d: int| 0 <= d < suffix.len()
        ==> buf[p + d] == #[trigger] suffix[d]) by {
        assert(forall|d: int| 0 <= d < suffix.len()
            ==> #[trigger] buf.subrange(p, buf.len() as int)[d] == buf[p + d]);
    }
    if k == ts.len() {
        assert(suffix =~= sep + seq![93u8]);
        assert forall|q: int| p <= q < buf.len() implies buf[q] != 34u8 by {
            let d = q - p;
            assert(buf[q] == suffix[d]);
            if d < sep.len() {
                if sep[d] == 34u8 {
                    assert(sep.contains(34u8));
                }
            } else {
                assert(suffix[d] == 93u8);
            }
        }
        lemma_find_off_none(buf, 34u8, p);
        assert(spec_decode_items(buf, p) =~~= ts.skip(k));
    } else {
        let t = ts[k];
        let sep2 = if k + 1 < ts.len() { seq![44u8, 32u8] } else { Seq::<u8>::empty() };
        let rest = if k + 1 < ts.len() { seq![34u8, 44u8, 32u8] } else { seq![34u8] };
        assert(spec_encode_items(ts, k) == seq![34u8] + t + rest + spec_encode_items(ts, k + 1));
        assert(rest =~= seq![34u8] + sep2);
        assert(suffix =~= sep + (seq![34u8] + t + (seq![34u8] + sep2
            + (spec_encode_items(ts, k + 1) + seq![93u8]))));
        assert(forall|d: int| 0 <= d < t.len() ==> t.contains(34u8) || #[trigger] t[d] != 34u8);
        assert(forall|d: int| 0 <= d < sep.len() ==> sep.contains(34u8) || #[trigger] sep[d] != 34u8);
        // the opening quote of the item stands right after the separator
        assert(suffix[sep.len() as int] == 34u8);
        assert forall|q: int| p <= q < p + sep.len() implies buf[q] != 34u8 by {
            let d = q - p;
            assert(buf[q] == suffix[d]);
            assert(suffix[d] == sep[d]);
            if sep[d] == 34u8 {
                assert(sep.contains(34u8));
            }
        }
        lemma_find_off_at(buf, 34u8, p, sep.len() as int);
        let j = p + sep.len();
        // the closing quote stands one title length further on
        assert(forall|d: int| 0 <= d < t.len() ==> suffix[sep.len() + 1 + d] == t[d]);
        assert(suffix[(sep.len() + 1 + t.len()) as int] == 34u8);
        assert forall|q: int| j + 1 <= q < j + 1 + t.len() implies buf[q] != 34u8 by {
            let d = q - (j + 1);
            assert(buf[q] == suffix[sep.len() + 1 + d]);
            assert(suffix[sep.len() + 1 + d] == t[d]);
            if t[d] == 34u8 {
                assert(t.contains(34u8));
            }
        }
        lemma_find_off_at(buf, 34u8, j + 1, t.len() as int);
        assert(buf.subrange(j + 1, j + 1 + t.len()) =~= t);
        // past the closing quote the suffix shape recurs
        let p2 = j + 1 + t.len() + 1;
        assert(!sep2.contains(34u8)) by {
            if sep2.contains(34u8) {
                let d = choose|d: int| 0 <= d < sep2.len() && sep2[d] == 34u8;
                assert(sep2[d] == 34u8);
            }
        }
        let tail = sep2 + (spec_encode_items(ts, k + 1) + seq![93u8]);
        assert forall|d: int| 0 <= d < buf.len() - p2 implies #[trigger] buf[p2 + d]
            == tail[d] by {
            assert(buf[p + ((p2 - p) + d)] == suffix[(p2 - p) + d]);
            assert(suffix[(p2 - p) + d] == tail[d]);
        }
        assert(suffix.len() == sep.len() + 1 + t.len() + 1 + sep2.len()
            + spec_encode_items(ts, k + 1).len() + 1);
        assert(p2 <= buf.len());
        assert(buf.len() - p2 == tail.len());
        assert forall|d: int| 0 <= d < tail.len()
            implies buf.subrange(p2, buf.len() as int)[d] == tail[d] by {
            assert(buf.subrange(p2, buf.len() as int)[d] == buf[p2 + d]);
            assert(buf[p2 + d] == tail[d]);
        }
        assert(buf.subrange(p2, buf.len() as int) =~= tail);
        assert(tail =~= sep2 + spec_encode_items(ts, k + 1) + seq![93u8]);
        lemma_decode_suffix(buf, p2, sep2, ts, k + 1);
        assert(spec_decode_items(buf, p) =~~= seq![t] + ts.skip(k + 1));
        assert(seq![t] + ts.skip(k + 1) =~~= ts.skip(k));
    }
}

/// The quote-pair scan recovers exactly the quoted segments, for
/// segments free of the double-quote byte.
proof fn lemma_decode_items_of_encoding(ts: Seq<Seq<u8>>)
    requires
        forall|i: int| 0 <= i < ts.len() ==> !(#[trigger] ts[i]).contains(34u8),
    ensures
        spec_decode_items(spec_encode_titles(ts), 0) == ts,
{
    let buf = spec_encode_titles(ts);
    let sep = seq![91u8];
    assert(!sep.contains(34u8)) by {
        assert(forall|d: int| 0 <= d < 1 ==> #[trigger] sep[d] != 34u8);
    }
    assert(buf.subrange(0, buf.len() as int) =~= sep + spec_encode_items(ts, 0) + seq![93u8]);
    lemma_decode_suffix(buf, 0, sep, ts, 0);
    assert(ts.skip(0) =~~= ts);
}

/// Decoding a query response recovers exactly the titles that were
/// encoded, whatever bytes they hold — the response names the tracked
/// titles unambiguously.
pub proof fn lemma_decode_inverts_encode(ts: Seq<Seq<u8>>)
    ensures
        spec_read_titles(spec_titles_response(ts)) == ts,
{
    let es = spec_escape_all(ts);
    assert forall|i: int| 0 <= i < es.len() implies !(#[trigger] es[i]).contains(34u8) by {
        lemma_escape_no_quote(ts[i]);
        assert(es[i] == spec_escape(ts[i]));
        if es[i].contains(34u8) {
            let d = choose|d: int| 0 <= d < es[i].len() && es[i][d] == 34u8;
            assert(spec_escape(ts[i])[d] == 34u8);
        }
    }
    lemma_decode_items_of_encoding(es);
    assert forall|j: int| 0 <= j < es.len()
        implies spec_unescape_all(es)[j] == ts[j] by {
        lemma_unescape_escape(ts[j]);
        assert(es[j] == spec_escape(ts[j]));
    }
    assert(spec_read_titles(spec_titles_response(ts)) =~~= ts);
}

} // verus!
