//! What holds of the scanner over a whole byte stream.

use vstd::prelude::*;

use crate::scanner::{is_space, step, token_outcome, Event, Input, Outcome, ScanState, PARSE_CAPACITY};

verus! {

/// The element in an answer, if there is one.
pub open spec fn items(e: Event) -> Seq<Outcome> {
    match e {
        Event::Item(o) => seq![o],
        _ => Seq::empty(),
    }
}

/// The state of a scanner at the start of a stream.
pub open spec fn fresh() -> ScanState {
    ScanState { pending: Seq::empty(), done: false }
}

/// The elements that come out when the source ends: feed the end once.
pub open spec fn drain(st: ScanState) -> Seq<Outcome> {
    items(step(st, Input::End).1)
}

/// The elements that come out when `bytes` are fed one by one, and then the
/// end of the source.
pub open spec fn scan(st: ScanState, bytes: Seq<u8>) -> Seq<Outcome>
    decreases bytes.len(),
{
    if bytes.len() == 0 {
        drain(st)
    } else {
        let (next, e) = step(st, Input::Byte(bytes[0]));
        items(e) + scan(next, bytes.drop_first())
    }
}

/// The number of bytes before the first whitespace byte.
pub open spec fn word_len(s: Seq<u8>) -> nat
    decreases s.len(),
{
    if s.len() == 0 || is_space(s[0]) {
        0
    } else {
        1 + word_len(s.drop_first())
    }
}

/// The maximal runs of non-whitespace bytes, in order.
pub open spec fn tokens(s: Seq<u8>) -> Seq<Seq<u8>>
    decreases s.len(),
{
    if s.len() == 0 {
        Seq::empty()
    } else if is_space(s[0]) {
        tokens(s.drop_first())
    } else {
        let n = word_len(s) as int;
        // n lies in 1..=s.len() here; the test says so to the termination check
        if 0 < n <= s.len() {
            seq![s.take(n)] + tokens(s.skip(n))
        } else {
            seq![s]
        }
    }
}

pub open spec fn no_space(s: Seq<u8>) -> bool {
    forall|i: int| 0 <= i < s.len() ==> !is_space(#[trigger] s[i])
}

/// Every token of `s` fits the token buffer.
pub open spec fn tokens_fit(s: Seq<u8>) -> bool {
    forall|i: int| 0 <= i < tokens(s).len() ==> (#[trigger] tokens(s)[i]).len() <= PARSE_CAPACITY
}

proof fn lemma_word_len_bound(s: Seq<u8>)
    ensures
        word_len(s) <= s.len(),
        s.len() > 0 && !is_space(s[0]) ==> word_len(s) >= 1,
    decreases s.len(),
{
    if s.len() > 0 && !is_space(s[0]) {
        lemma_word_len_bound(s.drop_first());
    }
}

proof fn lemma_word_len_prefix(p: Seq<u8>, s: Seq<u8>)
    requires
        no_space(p),
    ensures
        word_len(p + s) == p.len() + word_len(s),
    decreases p.len(),
{
    if p.len() > 0 {
        assert((p + s).drop_first() =~= p.drop_first() + s);
        lemma_word_len_prefix(p.drop_first(), s);
    } else {
        assert(p + s =~= s);
    }
}

/// A run of non-whitespace bytes joins the first token of what follows it.
proof fn lemma_tokens_prefix(p: Seq<u8>, s: Seq<u8>)
    requires
        p.len() > 0,
        no_space(p),
    ensures
        tokens(p + s) == seq![p + s.take(word_len(s) as int)] + tokens(s.skip(word_len(s) as int)),
{
    lemma_word_len_prefix(p, s);
    lemma_word_len_bound(s);
    lemma_word_len_bound(p + s);
    let n = word_len(s) as int;
    assert((p + s)[0] == p[0]);
    assert((p + s).take(p.len() + n) =~= p + s.take(n));
    assert((p + s).skip(p.len() + n) =~= s.skip(n));
}

proof fn lemma_word_len_all(s: Seq<u8>)
    requires
        no_space(s),
    ensures
        word_len(s) == s.len(),
{
    lemma_word_len_prefix(s, Seq::empty());
    assert(s + Seq::<u8>::empty() =~= s);
}

/// Whitespace at the front of a stream adds no token.
proof fn lemma_tokens_space(s: Seq<u8>)
    requires
        s.len() > 0,
        is_space(s[0]),
    ensures
        tokens(s) == tokens(s.drop_first()),
{
}

proof fn lemma_scan_matches_tokens(p: Seq<u8>, bytes: Seq<u8>)
    requires
        p.len() <= PARSE_CAPACITY,
        no_space(p),
        tokens_fit(p + bytes),
    ensures
        scan(ScanState { pending: p, done: false }, bytes) == tokens(p + bytes).map_values(
            |t: Seq<u8>| token_outcome(t),
        ),
    decreases bytes.len(),
{
    let st = ScanState { pending: p, done: false };
    let f = |t: Seq<u8>| token_outcome(t);
    if bytes.len() == 0 {
        assert(p + bytes =~= p);
        if p.len() > 0 {
            lemma_tokens_prefix(p, bytes);
            assert(bytes.take(0) =~= bytes);
            assert(p + bytes.take(0) =~= p);
            assert(tokens(p) =~= seq![p]);
            assert(tokens(p).map_values(f) =~= seq![token_outcome(p)]);
        } else {
            assert(tokens(p).map_values(f) =~= Seq::<Outcome>::empty());
        }
    } else {
        let b = bytes[0];
        let rest = bytes.drop_first();
        if is_space(b) {
            if p.len() == 0 {
                assert(p + bytes =~= bytes);
                assert(p + rest =~= rest);
                lemma_tokens_space(bytes);
                lemma_scan_matches_tokens(p, rest);
            } else {
                lemma_tokens_prefix(p, bytes);
                assert(word_len(bytes) == 0);
                assert(p + bytes.take(0) =~= p);
                assert(bytes.skip(0) =~= bytes);
                lemma_tokens_space(bytes);
                let e = Seq::<u8>::empty();
                assert(e + rest =~= rest);
                assert(tokens(p + bytes) == seq![p] + tokens(rest));
                assert forall|i: int| 0 <= i < tokens(e + rest).len() implies (#[trigger] tokens(
                    e + rest,
                )[i]).len() <= PARSE_CAPACITY by {
                    assert(tokens(p + bytes)[i + 1] == tokens(rest)[i]);
                }
                lemma_scan_matches_tokens(e, rest);
                assert(tokens(p + bytes).map_values(f) =~= seq![token_outcome(p)] + tokens(
                    rest,
                ).map_values(f));
            }
        } else {
            if p.len() < PARSE_CAPACITY {
                let q = p.push(b);
                assert(q + rest =~= p + bytes);
                lemma_scan_matches_tokens(q, rest);
            } else {
                lemma_tokens_prefix(p, bytes);
                lemma_word_len_bound(bytes);
                assert(tokens(p + bytes)[0].len() > PARSE_CAPACITY);
            }
        }
    }
}

/// Each whitespace-separated token that fits the buffer yields exactly one
/// element, in input order, and that element is what the token alone yields;
/// whitespace (leading, trailing, repeated, of any kind) yields nothing.
pub proof fn lemma_scan_yields_tokens(bytes: Seq<u8>)
    requires
        tokens_fit(bytes),
    ensures
        scan(fresh(), bytes) == tokens(bytes).map_values(|t: Seq<u8>| token_outcome(t)),
{
    let e = Seq::<u8>::empty();
    assert(e + bytes =~= bytes);
    lemma_scan_matches_tokens(e, bytes);
}

/// A stream of whitespace alone, the empty stream included, yields nothing.
pub proof fn lemma_blank_yields_nothing(bytes: Seq<u8>)
    requires
        forall|i: int| 0 <= i < bytes.len() ==> is_space(#[trigger] bytes[i]),
    ensures
        scan(fresh(), bytes) == Seq::<Outcome>::empty(),
    decreases bytes.len(),
{
    if bytes.len() > 0 {
        lemma_blank_yields_nothing(bytes.drop_first());
        assert(items(Event::Pending) =~= Seq::<Outcome>::empty());
        assert(Seq::<Outcome>::empty() + Seq::<Outcome>::empty() =~= Seq::<Outcome>::empty());
    }
}

proof fn lemma_scan_too_big(p: Seq<u8>, bytes: Seq<u8>)
    requires
        p.len() <= PARSE_CAPACITY,
        no_space(p),
        p.len() + bytes.len() > PARSE_CAPACITY,
        no_space(bytes.take(PARSE_CAPACITY + 1 - p.len())),
    ensures
        scan(ScanState { pending: p, done: false }, bytes).len() > 0,
        scan(ScanState { pending: p, done: false }, bytes)[0] == Outcome::TooBig(
            (p + bytes).take(PARSE_CAPACITY as int),
        ),
    decreases bytes.len(),
{
    let st = ScanState { pending: p, done: false };
    let b = bytes[0];
    let rest = bytes.drop_first();
    assert(bytes.take(PARSE_CAPACITY + 1 - p.len())[0] == b);
    if p.len() < PARSE_CAPACITY {
        let q = p.push(b);
        assert(q + rest =~= p + bytes);
        assert forall|i: int| 0 <= i < q.len() implies !is_space(#[trigger] q[i]) by {
            if i == p.len() {
                assert(q[i] == b);
            }
        }
        assert forall|i: int| 0 <= i < rest.take(PARSE_CAPACITY + 1 - q.len()).len() implies !is_space(
            #[trigger] rest.take(PARSE_CAPACITY + 1 - q.len())[i],
        ) by {
            assert(rest.take(PARSE_CAPACITY + 1 - q.len())[i] == bytes.take(
                PARSE_CAPACITY + 1 - p.len(),
            )[i + 1]);
        }
        lemma_scan_too_big(q, rest);
    } else {
        assert((p + bytes).take(PARSE_CAPACITY as int) =~= p);
    }
}

/// A run of more than `PARSE_CAPACITY` non-whitespace bytes at the start of
/// the stream yields a too-large error first, holding the bytes that fit.
pub proof fn lemma_long_token_too_big(bytes: Seq<u8>)
    requires
        bytes.len() > PARSE_CAPACITY,
        forall|i: int| 0 <= i <= PARSE_CAPACITY ==> !is_space(#[trigger] bytes[i]),
    ensures
        scan(fresh(), bytes).len() > 0,
        scan(fresh(), bytes)[0] == Outcome::TooBig(bytes.take(PARSE_CAPACITY as int)),
{
    let e = Seq::<u8>::empty();
    assert(e + bytes =~= bytes);
    assert forall|i: int| 0 <= i < bytes.take(PARSE_CAPACITY + 1).len() implies !is_space(
        #[trigger] bytes.take(PARSE_CAPACITY + 1)[i],
    ) by {
        assert(bytes.take(PARSE_CAPACITY + 1)[i] == bytes[i]);
    }
    lemma_scan_too_big(e, bytes);
}

/// After the source has ended twice in a row, the sequence is over, and
/// every later input, of any kind, answers so again and changes nothing.
pub proof fn lemma_end_is_final(st: ScanState, later: Input)
    ensures
        ({
            let ended = step(step(st, Input::End).0, Input::End).0;
            &&& ended.done
            &&& step(ended, later) == (ended, Event::Finished)
        }),
{
}

} // verus!
