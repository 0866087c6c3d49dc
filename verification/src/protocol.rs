//! The JOIN and PEERS gossip frames.
//!
//! `JOIN|<json>` announces the sender's identity over a fresh
//! connection; `PEERS|<json>;<json>;...` propagates the membership.
//! Since the codec escapes `;`, an encoded summary never collides with
//! the segment separator, and the PEERS round trip holds for every
//! list of summaries.

use vstd::prelude::*;

use crate::codec::{
    decode_summary_chars, decode_summary_spec, enc_summary, encode_summary_chars, is_ws,
    lemma_enc_summary_shape, lemma_summary_round_trip, no_semi, skip_ws,
};
use crate::errors::CoreError;
use crate::strutil::{chars_to_string, str_to_chars};
use crate::summary::{PeerSummary, SummaryView};

verus! {

// ---------------------------------------------------------------------------
// Frames, as mathematical functions.
// ---------------------------------------------------------------------------
pub open spec fn join_prefix() -> Seq<char> {
    seq!['J', 'O', 'I', 'N', '|']
}

pub open spec fn peers_prefix() -> Seq<char> {
    seq!['P', 'E', 'E', 'R', 'S', '|']
}

/// The views of a list of summaries.
pub open spec fn views_of(s: Seq<PeerSummary>) -> Seq<SummaryView> {
    s.map_values(|p: PeerSummary| p@)
}

/// The encodings of the summaries joined with `;`.
pub open spec fn join_encodings(ss: Seq<SummaryView>) -> Seq<char>
    decreases ss.len(),
{
    if ss.len() == 0 {
        Seq::empty()
    } else if ss.len() == 1 {
        enc_summary(ss[0])
    } else {
        enc_summary(ss[0]) + seq![';'] + join_encodings(ss.drop_first())
    }
}

/// The complete PEERS frame for a membership snapshot.
pub open spec fn peers_frame(ss: Seq<SummaryView>) -> Seq<char> {
    peers_prefix() + join_encodings(ss)
}

/// The complete JOIN frame for one summary.
pub open spec fn join_frame(sv: SummaryView) -> Seq<char> {
    join_prefix() + enc_summary(sv)
}

// ---------------------------------------------------------------------------
// Decoding a PEERS frame, as a mathematical function.
// ---------------------------------------------------------------------------
/// The input split at every `;`; always at least one segment.
pub open spec fn split_semi(s: Seq<char>) -> Seq<Seq<char>>
    decreases s.len(),
{
    if s.len() == 0 {
        seq![Seq::<char>::empty()]
    } else if s[0] == ';' {
        seq![Seq::<char>::empty()] + split_semi(s.drop_first())
    } else {
        let r = split_semi(s.drop_first());
        seq![seq![s[0]] + r[0]] + r.drop_first()
    }
}

/// The input with trailing whitespace removed.
pub open spec fn trim_back(s: Seq<char>) -> Seq<char>
    decreases s.len(),
{
    if s.len() > 0 && is_ws(s.last()) {
        trim_back(s.drop_last())
    } else {
        s
    }
}

/// The input with leading and trailing whitespace removed.
pub open spec fn trim(s: Seq<char>) -> Seq<char> {
    trim_back(skip_ws(s))
}

/// The summaries decoded out of the segments: each segment trimmed,
/// empty segments skipped, and segments that do not decode skipped.
pub open spec fn decode_segments(segs: Seq<Seq<char>>) -> Seq<SummaryView>
    decreases segs.len(),
{
    if segs.len() == 0 {
        Seq::empty()
    } else {
        let t = trim(segs[0]);
        let rest = decode_segments(segs.drop_first());
        if t.len() == 0 {
            rest
        } else {
            match decode_summary_spec(t) {
                Some(v) => seq![v] + rest,
                None => rest,
            }
        }
    }
}

/// Whether a line is a PEERS frame.
pub open spec fn is_peers_frame(s: Seq<char>) -> bool {
    s.len() >= 6 && s.take(6) == peers_prefix()
}

/// The summaries carried by a PEERS frame.
pub open spec fn decode_peers_spec(s: Seq<char>) -> Seq<SummaryView>
    recommends
        is_peers_frame(s),
{
    decode_segments(split_semi(s.skip(6)))
}

// ---------------------------------------------------------------------------
// Decoding a JOIN frame, as a mathematical function.
// ---------------------------------------------------------------------------
/// Index of the first `|`, or the length when there is none.
pub open spec fn find_pipe(s: Seq<char>) -> int
    decreases s.len(),
{
    if s.len() == 0 {
        0
    } else if s[0] == '|' {
        0
    } else {
        1 + find_pipe(s.drop_first())
    }
}

/// The summary carried by a JOIN frame: everything after the first
/// `|`, JSON-decoded.
pub open spec fn decode_join_spec(s: Seq<char>) -> Option<SummaryView> {
    if find_pipe(s) < s.len() {
        decode_summary_spec(s.skip(find_pipe(s) + 1))
    } else {
        None
    }
}

// ---------------------------------------------------------------------------
// Round-trip laws.
// ---------------------------------------------------------------------------
/// Splitting at `;` after joining a semicolon-free head puts the head
/// back as the first segment.
proof fn lemma_split_semi_of_join(a: Seq<char>, b: Seq<char>)
    requires
        no_semi(a),
    ensures
        split_semi(a + seq![';'] + b) == seq![a] + split_semi(b),
    decreases a.len(),
{
    let s = a + seq![';'] + b;
    if a.len() == 0 {
        assert(s =~= seq![';'] + b);
        assert(s[0] == ';');
        assert(s.drop_first() =~= b);
        assert(a =~= Seq::<char>::empty());
        assert(seq![Seq::<char>::empty()] + split_semi(b) =~= seq![a] + split_semi(b));
    } else {
        assert(s[0] == a[0]);
        assert(a[0] != ';');
        assert(s.drop_first() =~= a.drop_first() + seq![';'] + b);
        assert(no_semi(a.drop_first())) by {
            assert(forall|i: int|
                0 <= i < a.drop_first().len() ==> #[trigger] a.drop_first()[i] == a[i + 1]);
        }
        lemma_split_semi_of_join(a.drop_first(), b);
        let r = split_semi(s.drop_first());
        assert(r[0] == a.drop_first());
        assert(seq![a[0]] + r[0] =~= a);
        assert(r.drop_first() =~= split_semi(b));
        assert(split_semi(s) =~= seq![a] + split_semi(b));
    }
}

/// A segment holding exactly one encoded summary needs no trimming.
proof fn lemma_trim_enc_noop(sv: SummaryView)
    ensures
        trim(enc_summary(sv)) == enc_summary(sv),
{
    let e = enc_summary(sv);
    lemma_enc_summary_shape(sv);
    assert(!is_ws(e[0]));
    assert(skip_ws(e) == e);
    assert(!is_ws(e.last()));
    assert(trim_back(e) == e);
}

/// Splitting the joined encodings yields exactly the encodings.
proof fn lemma_split_of_encodings(ss: Seq<SummaryView>)
    requires
        ss.len() >= 1,
    ensures
        split_semi(join_encodings(ss)) == ss.map_values(|v: SummaryView| enc_summary(v)),
    decreases ss.len(),
{
    let encs = ss.map_values(|v: SummaryView| enc_summary(v));
    if ss.len() == 1 {
        lemma_enc_summary_shape(ss[0]);
        let e = enc_summary(ss[0]);
        assert(split_semi(e) =~= seq![e]) by {
            lemma_split_no_semi(e);
        }
        assert(encs =~= seq![e]);
    } else {
        lemma_enc_summary_shape(ss[0]);
        lemma_split_semi_of_join(enc_summary(ss[0]), join_encodings(ss.drop_first()));
        lemma_split_of_encodings(ss.drop_first());
        assert(ss.drop_first().map_values(|v: SummaryView| enc_summary(v)) =~= encs.drop_first());
        assert(split_semi(join_encodings(ss)) =~= encs);
    }
}

/// A semicolon-free input is one single segment.
proof fn lemma_split_no_semi(s: Seq<char>)
    requires
        no_semi(s),
    ensures
        split_semi(s) == seq![s],
    decreases s.len(),
{
    if s.len() == 0 {
        assert(s =~= Seq::<char>::empty());
        assert(split_semi(s) =~= seq![s]);
    } else {
        assert(s[0] != ';');
        assert(no_semi(s.drop_first())) by {
            assert(forall|i: int|
                0 <= i < s.drop_first().len() ==> #[trigger] s.drop_first()[i] == s[i + 1]);
        }
        lemma_split_no_semi(s.drop_first());
        let r = split_semi(s.drop_first());
        assert(r[0] == s.drop_first());
        assert(seq![s[0]] + r[0] =~= s);
        assert(r.drop_first() =~= Seq::<Seq<char>>::empty());
        assert(split_semi(s) =~= seq![s]);
    }
}

/// Decoding the segments that are exactly the encodings yields the
/// original summaries.
#[verifier::rlimit(100)]
#[verifier::spinoff_prover]
proof fn lemma_decode_enc_segments(ss: Seq<SummaryView>)
    ensures
        decode_segments(ss.map_values(|v: SummaryView| enc_summary(v))) == ss,
    decreases ss.len(),
{
    let segs = ss.map_values(|v: SummaryView| enc_summary(v));
    if ss.len() == 0 {
        assert(decode_segments(segs) =~= ss);
    } else {
        lemma_trim_enc_noop(ss[0]);
        lemma_enc_summary_shape(ss[0]);
        assert(trim(segs[0]).len() > 0);
        lemma_summary_round_trip(ss[0]);
        assert(segs.drop_first() =~= ss.drop_first().map_values(|v: SummaryView| enc_summary(v)));
        lemma_decode_enc_segments(ss.drop_first());
        assert(decode_segments(segs) =~= ss);
    }
}

/// Law: for any sequence of summaries, the PEERS frame built from
/// their encodings decodes back to the same sequence.
pub proof fn lemma_peers_round_trip(ss: Seq<SummaryView>)
    ensures
        is_peers_frame(peers_frame(ss)),
        decode_peers_spec(peers_frame(ss)) == ss,
{
    let f = peers_frame(ss);
    assert(f.take(6) =~= peers_prefix());
    assert(f.skip(6) =~= join_encodings(ss));
    if ss.len() == 0 {
        assert(join_encodings(ss) =~= Seq::<char>::empty());
        assert(split_semi(Seq::<char>::empty()) =~= seq![Seq::<char>::empty()]);
        assert(trim(Seq::<char>::empty()) =~= Seq::<char>::empty()) by {
            assert(skip_ws(Seq::<char>::empty()) =~= Seq::<char>::empty());
        }
        assert(decode_segments(Seq::<Seq<char>>::empty()) =~= Seq::<SummaryView>::empty());
        assert(seq![Seq::<char>::empty()].drop_first() =~= Seq::<Seq<char>>::empty());
        assert(decode_segments(seq![Seq::<char>::empty()]) =~= Seq::<SummaryView>::empty());
        assert(decode_peers_spec(f) =~= ss);
    } else {
        lemma_split_of_encodings(ss);
        lemma_decode_enc_segments(ss);
    }
}

// ---------------------------------------------------------------------------
// The executable frame builders.
// ---------------------------------------------------------------------------
/// Appending one summary to a joined list appends a separator and its
/// encoding.
proof fn lemma_join_snoc(ss: Seq<SummaryView>, x: SummaryView)
    ensures
        join_encodings(ss.push(x)) == if ss.len() == 0 {
            enc_summary(x)
        } else {
            join_encodings(ss) + seq![';'] + enc_summary(x)
        },
    decreases ss.len(),
{
    if ss.len() == 0 {
        assert(ss.push(x) =~= seq![x]);
        assert(join_encodings(seq![x]) == enc_summary(x));
    } else {
        assert(ss.push(x).drop_first() =~= ss.drop_first().push(x));
        assert(ss.push(x)[0] == ss[0]);
        lemma_join_snoc(ss.drop_first(), x);
        if ss.len() == 1 {
            assert(ss.drop_first().len() == 0);
            assert(join_encodings(ss.push(x)) =~= join_encodings(ss) + seq![';'] + enc_summary(x));
        } else {
            assert(join_encodings(ss) == enc_summary(ss[0]) + seq![';'] + join_encodings(
                ss.drop_first(),
            ));
            assert(join_encodings(ss.push(x)) =~= join_encodings(ss) + seq![';'] + enc_summary(x));
        }
    }
}

/// The PEERS frame for a membership snapshot, as specified by
/// `peers_frame`.
pub fn peers_payload(summaries: &Vec<PeerSummary>) -> (r: String)
    ensures
        r@ == peers_frame(views_of(summaries@)),
{
    let ghost vs = views_of(summaries@);
    let mut out: Vec<char> = Vec::new();
    out.push('P');
    out.push('E');
    out.push('E');
    out.push('R');
    out.push('S');
    out.push('|');
    proof {
        assert(vs.take(0) =~= Seq::<SummaryView>::empty());
        assert(out@ =~= peers_prefix() + join_encodings(vs.take(0)));
    }
    let mut i: usize = 0;
    while i < summaries.len()
        invariant
            vs == views_of(summaries@),
            vs.len() == summaries@.len(),
            i <= summaries@.len(),
            out@ == peers_prefix() + join_encodings(vs.take(i as int)),
        decreases summaries@.len() - i,
    {
        if i > 0 {
            out.push(';');
        }
        let mut enc = crate::codec::encode_summary_chars(&summaries[i]);
        out.append(&mut enc);
        proof {
            assert(vs[i as int] == summaries@[i as int]@);
            assert(vs.take(i + 1) =~= vs.take(i as int).push(vs[i as int]));
            lemma_join_snoc(vs.take(i as int), vs[i as int]);
            assert(out@ =~= peers_prefix() + join_encodings(vs.take(i + 1)));
        }
        i = i + 1;
    }
    proof {
        assert(vs.take(vs.len() as int) =~= vs);
    }
    chars_to_string(&out)
}

/// The JOIN frame for one summary, as specified by `join_frame`.
pub fn join_payload(summary: &PeerSummary) -> (r: String)
    ensures
        r@ == join_frame(summary@),
{
    let mut out: Vec<char> = Vec::new();
    out.push('J');
    out.push('O');
    out.push('I');
    out.push('N');
    out.push('|');
    let mut enc = crate::codec::encode_summary_chars(summary);
    out.append(&mut enc);
    proof {
        assert(out@ =~= join_frame(summary@));
    }
    chars_to_string(&out)
}

// ---------------------------------------------------------------------------
// The executable frame parsers.
// ---------------------------------------------------------------------------
/// Index of the first `|` at or after `i`, or the length.
pub(crate) fn scan_pipe(s: &Vec<char>, i: usize) -> (r: usize)
    requires
        i <= s@.len(),
    ensures
        i <= r <= s@.len(),
        r - i == find_pipe(s@.skip(i as int)),
        r < s@.len() ==> s@[r as int] == '|',
    decreases s@.len() - i,
{
    if i >= s.len() {
        proof {
            assert(s@.skip(i as int).len() == 0);
        }
        i
    } else {
        proof {
            assert(s@.skip(i as int)[0] == s@[i as int]);
        }
        if s[i] == '|' {
            i
        } else {
            proof {
                assert(s@.skip(i as int).drop_first() =~= s@.skip(i + 1));
            }
            scan_pipe(s, i + 1)
        }
    }
}

/// The summary carried by a JOIN frame: everything after the first
/// `|`, JSON-decoded.  `ProtocolDecode` when there is no `|` or the
/// payload is not a well-formed summary object.
pub fn parse_join_frame(line: &str) -> (r: Result<PeerSummary, CoreError>)
    ensures
        match r {
            Ok(p) => decode_join_spec(line@) == Some(p@),
            Err(e) => e == CoreError::ProtocolDecode && decode_join_spec(line@) is None,
        },
{
    let chars = str_to_chars(line);
    proof {
        assert(chars@.skip(0) =~= chars@);
    }
    let p = scan_pipe(&chars, 0);
    if p >= chars.len() {
        return Err(CoreError::ProtocolDecode);
    }
    let mut body: Vec<char> = Vec::new();
    let mut k: usize = p + 1;
    while k < chars.len()
        invariant
            p + 1 <= k <= chars@.len(),
            body@ == chars@.subrange(p + 1, k as int),
        decreases chars@.len() - k,
    {
        body.push(chars[k]);
        proof {
            assert(body@ =~= chars@.subrange(p + 1, k + 1));
        }
        k = k + 1;
    }
    proof {
        assert(body@ =~= chars@.skip(p + 1));
    }
    match decode_summary_chars(&body) {
        Some(s) => Ok(s),
        None => Err(CoreError::ProtocolDecode),
    }
}

/// Splits the suffix of `s` from `i` at every `;`.
pub(crate) fn split_semi_chars(s: &Vec<char>, i: usize) -> (r: Vec<Vec<char>>)
    requires
        i <= s@.len(),
    ensures
        r.deep_view() == split_semi(s@.skip(i as int)),
        r@.len() >= 1,
    decreases s@.len() - i,
{
    if i >= s.len() {
        proof {
            assert(s@.skip(i as int).len() == 0);
        }
        let mut r: Vec<Vec<char>> = Vec::new();
        r.push(Vec::new());
        proof {
            assert(r.deep_view() =~~= seq![Seq::<char>::empty()]);
        }
        r
    } else {
        proof {
            assert(s@.skip(i as int)[0] == s@[i as int]);
            assert(s@.skip(i as int).drop_first() =~= s@.skip(i + 1));
        }
        if s[i] == ';' {
            let mut r = split_semi_chars(s, i + 1);
            let ghost old_r = r.deep_view();
            r.insert(0, Vec::new());
            proof {
                assert(r.deep_view() =~~= seq![Seq::<char>::empty()] + old_r);
            }
            r
        } else {
            let mut r = split_semi_chars(s, i + 1);
            let ghost old_r = r.deep_view();
            let mut first = r.remove(0);
            let ghost old_first = first@;
            first.insert(0, s[i]);
            proof {
                assert(first@ =~= seq![s@[i as int]] + old_first);
            }
            r.insert(0, first);
            proof {
                assert(r.deep_view() =~~= seq![seq![s@[i as int]] + old_r[0]] + old_r.drop_first());
            }
            r
        }
    }
}

/// The segment with its leading and trailing whitespace removed.
pub(crate) fn trim_chars(s: &Vec<char>) -> (r: Vec<char>)
    ensures
        r@ == trim(s@),
{
    let mut a: usize = 0;
    proof {
        assert(s@.skip(0) =~= s@);
    }
    while a < s.len() && crate::codec::ws_char(s[a])
        invariant
            a <= s@.len(),
            skip_ws(s@) == skip_ws(s@.skip(a as int)),
        decreases s@.len() - a,
    {
        proof {
            assert(s@.skip(a as int)[0] == s@[a as int]);
            assert(s@.skip(a as int).drop_first() =~= s@.skip(a + 1));
        }
        a = a + 1;
    }
    proof {
        if a < s@.len() {
            assert(s@.skip(a as int)[0] == s@[a as int]);
        }
        assert(skip_ws(s@) == s@.skip(a as int));
    }
    let mut b: usize = s.len();
    while b > a && crate::codec::ws_char(s[b - 1])
        invariant
            a <= b <= s@.len(),
            skip_ws(s@) == s@.skip(a as int),
            trim_back(s@.skip(a as int)) == trim_back(s@.subrange(a as int, b as int)),
        decreases b,
    {
        proof {
            let x = s@.subrange(a as int, b as int);
            assert(x.last() == s@[b - 1]);
            assert(x.drop_last() =~= s@.subrange(a as int, b - 1));
        }
        b = b - 1;
    }
    proof {
        let x = s@.subrange(a as int, b as int);
        if b > a {
            assert(x.last() == s@[b - 1]);
        }
        assert(trim_back(x) == x);
    }
    let mut out: Vec<char> = Vec::new();
    let mut k: usize = a;
    while k < b
        invariant
            a <= k <= b <= s@.len(),
            out@ == s@.subrange(a as int, k as int),
        decreases b - k,
    {
        out.push(s[k]);
        proof {
            assert(out@ =~= s@.subrange(a as int, k + 1));
        }
        k = k + 1;
    }
    proof {
        assert(out@ =~= s@.subrange(a as int, b as int));
    }
    out
}

/// The summaries carried by a PEERS frame, empty and undecodable
/// segments skipped; `ProtocolDecode` when the line does not start
/// with the PEERS prefix.
pub fn parse_peers_frame(line: &str) -> (r: Result<Vec<PeerSummary>, CoreError>)
    ensures
        match r {
            Ok(v) => is_peers_frame(line@) && v.deep_view() == decode_peers_spec(line@),
            Err(e) => e == CoreError::ProtocolDecode && !is_peers_frame(line@),
        },
{
    let chars = str_to_chars(line);
    let mut prefix: Vec<char> = Vec::new();
    prefix.push('P');
    prefix.push('E');
    prefix.push('E');
    prefix.push('R');
    prefix.push('S');
    prefix.push('|');
    proof {
        assert(prefix@ =~= peers_prefix());
    }
    if !crate::strutil::chars_have_prefix(&chars, &prefix) {
        return Err(CoreError::ProtocolDecode);
    }
    let segs = split_semi_chars(&chars, 6);
    let ghost sview = segs.deep_view();
    let mut out: Vec<PeerSummary> = Vec::new();
    let mut k: usize = 0;
    proof {
        assert(sview.skip(0) =~= sview);
    }
    while k < segs.len()
        invariant
            sview == segs.deep_view(),
            sview.len() == segs@.len(),
            k <= segs@.len(),
            forall|j: int| 0 <= j < segs@.len() ==> sview[j] == (#[trigger] segs@[j])@,
            decode_segments(sview) == out.deep_view() + decode_segments(sview.skip(k as int)),
        decreases segs@.len() - k,
    {
        let ghost pre = out.deep_view();
        let t = trim_chars(&segs[k]);
        proof {
            assert(sview.skip(k as int)[0] == sview[k as int]);
            assert(sview.skip(k as int).drop_first() =~= sview.skip(k + 1));
        }
        if t.len() > 0 {
            match decode_summary_chars(&t) {
                Some(p) => {
                    out.push(p);
                    proof {
                        assert(out.deep_view() =~= pre + seq![p@]);
                        assert(pre + (seq![p@] + decode_segments(sview.skip(k + 1)))
                            =~= out.deep_view() + decode_segments(sview.skip(k + 1)));
                    }
                },
                None => {},
            }
        }
        k = k + 1;
    }
    proof {
        assert(sview.skip(sview.len() as int).len() == 0);
        assert(decode_segments(sview.skip(sview.len() as int)) =~= Seq::<SummaryView>::empty());
        assert(out.deep_view() =~= decode_segments(sview));
        assert(chars@.skip(6) =~= line@.skip(6));
        assert(line@.take(6) =~= peers_prefix());
    }
    Ok(out)
}

/// The listen addresses advertised by a list of summaries, in order;
/// `ConfigMissing` when any summary lacks one.
pub fn peers_listen_addrs(peers: &Vec<PeerSummary>) -> (r: Result<Vec<String>, CoreError>)
    ensures
        match r {
            Ok(v) => {
                &&& v@.len() == peers@.len()
                &&& forall|i: int|
                    0 <= i < v@.len() ==> (#[trigger] peers@[i])@.listen_addr == Some(v@[i]@)
            },
            Err(e) => e == CoreError::ConfigMissing && exists|i: int|
                0 <= i < peers@.len() && (#[trigger] peers@[i])@.listen_addr is None,
        },
{
    let mut out: Vec<String> = Vec::new();
    let mut i: usize = 0;
    while i < peers.len()
        invariant
            i <= peers@.len(),
            out@.len() == i,
            forall|j: int| 0 <= j < i ==> (#[trigger] peers@[j])@.listen_addr == Some(out@[j]@),
        decreases peers@.len() - i,
    {
        match peers[i].listen_addr_or_err(10) {
            Ok(a) => {
                out.push(a);
            },
            Err(e) => {
                return Err(e);
            },
        }
        i = i + 1;
    }
    Ok(out)
}

/// Law: a JOIN frame decodes back to the summary it carries.
pub proof fn lemma_join_round_trip(sv: SummaryView)
    ensures
        decode_join_spec(join_frame(sv)) == Some(sv),
{
    let f = join_frame(sv);
    assert(f[0] == 'J' && f[1] == 'O' && f[2] == 'I' && f[3] == 'N' && f[4] == '|');
    let f1 = f.drop_first();
    let f2 = f1.drop_first();
    let f3 = f2.drop_first();
    let f4 = f3.drop_first();
    assert(f1[0] == 'O' && f2[0] == 'I' && f3[0] == 'N' && f4[0] == '|');
    assert(find_pipe(f4) == 0);
    assert(find_pipe(f3) == 1);
    assert(find_pipe(f2) == 2);
    assert(find_pipe(f1) == 3);
    assert(find_pipe(f) == 4);
    assert(f.skip(5) =~= enc_summary(sv));
    lemma_summary_round_trip(sv);
}

} // verus!
