//! Forwarding each transfer frame once.

use crate::encoding::{base64_len, base64_text, encode, law_base64_keeps_everything};
use crate::header::{frame_id, frame_key};
use std::collections::HashSet;
use vstd::prelude::*;

verus! {

/// The current session, and the sequence numbers of it that were forwarded.
pub struct SeenFrames {
    session: u16,
    seqs: HashSet<u32>,
}

impl View for SeenFrames {
    type V = (u16, Set<u32>);

    closed spec fn view(&self) -> (u16, Set<u32>) {
        (self.session, self.seqs@)
    }
}

/// Whether a payload is to be forwarded: its frame was not seen in this session, or it has no head
/// that tells.
pub open spec fn is_new(seen: (u16, Set<u32>), payload: Seq<u8>) -> bool {
    match frame_key(payload) {
        Some((session, seq)) => seen.0 != session || !seen.1.contains(seq),
        None => true,
    }
}

/// What was seen once a payload is noted. A new session makes the old one forgotten.
pub open spec fn noted(seen: (u16, Set<u32>), payload: Seq<u8>) -> (u16, Set<u32>) {
    match frame_key(payload) {
        Some((session, seq)) => if seen.0 != session {
            (session, Set::empty().insert(seq))
        } else {
            (session, seen.1.insert(seq))
        },
        None => seen,
    }
}

/// What was seen once all of `ps` are noted, in order.
pub open spec fn noted_all(seen: (u16, Set<u32>), ps: Seq<Seq<u8>>) -> (u16, Set<u32>)
    decreases ps.len(),
{
    if ps.len() == 0 {
        seen
    } else {
        noted(noted_all(seen, ps.drop_last()), ps.last())
    }
}

/// Those of `ps`, in order, that are to be forwarded.
pub open spec fn fresh(seen: (u16, Set<u32>), ps: Seq<Seq<u8>>) -> Seq<Seq<u8>>
    decreases ps.len(),
{
    if ps.len() == 0 {
        Seq::empty()
    } else {
        let before = fresh(seen, ps.drop_last());
        if is_new(noted_all(seen, ps.drop_last()), ps.last()) {
            before.push(ps.last())
        } else {
            before
        }
    }
}

/// Texts, each by its contents.
pub open spec fn texts(v: Seq<String>) -> Seq<Seq<char>> {
    v.map_values(|s: String| s@)
}

/// The Base64 texts of byte strings.
pub open spec fn base64_texts(ps: Seq<Seq<u8>>) -> Seq<Seq<char>> {
    ps.map_values(|p: Seq<u8>| base64_text(p))
}

/// Whether the Base64 text of every payload fits in memory.
pub open spec fn encodable(ps: Seq<Vec<u8>>) -> bool {
    forall|i: int| 0 <= i < ps.len() ==> base64_len(#[trigger] ps[i]@.len() as int) <= isize::MAX
}

/// Whether the Base64 text of every payload fits in memory.
pub fn is_encodable(ps: &Vec<Vec<u8>>) -> (b: bool)
    ensures
        b == encodable(ps@),
{
    for i in 0..ps.len()
        invariant
            forall|k: int|
                0 <= k < i ==> base64_len(#[trigger] ps@[k]@.len() as int) <= isize::MAX,
    {
        let n: usize = ps[i].len();
        if (n as u128 + 2) / 3 * 4 > isize::MAX as u128 {
            assert(base64_len(ps@[i as int]@.len() as int) > isize::MAX);
            return false;
        }
    }
    true
}

impl SeenFrames {
    /// Nothing seen yet.
    pub fn new() -> (s: Self)
        ensures
            s@ == (0u16, Set::<u32>::empty()),
    {
        SeenFrames { session: 0, seqs: HashSet::new() }
    }

    /// Notes a payload. Returns whether it is to be forwarded.
    fn note(&mut self, payload: &[u8]) -> (forward: bool)
        ensures
            final(self)@ == noted(old(self)@, payload@),
            forward == is_new(old(self)@, payload@),
    {
        broadcast use vstd::std_specs::hash::group_hash_axioms;

        match frame_id(payload) {
            Some((session, seq)) => {
                if self.session != session {
                    self.session = session;
                    self.seqs.clear();
                }
                self.seqs.insert(seq)
            },
            None => true,
        }
    }

    /// Notes decoded payloads, in order. Returns the Base64 texts of those that are to be forwarded:
    /// a code stays on screen for many camera frames and is decoded in each, and only the first
    /// sighting counts. A payload without a readable head is always forwarded.
    pub fn forward(&mut self, ps: &Vec<Vec<u8>>) -> (codes: Vec<String>)
        requires
            encodable(ps@),
        ensures
            final(self)@ == noted_all(old(self)@, crate::payload::byte_strings(ps@)),
            texts(codes@) == base64_texts(fresh(old(self)@, crate::payload::byte_strings(ps@))),
    {
        let mut codes: Vec<String> = Vec::new();
        let ghost all = crate::payload::byte_strings(ps@);
        assert(texts(codes@) =~= base64_texts(fresh(old(self)@, all.take(0))));
        for i in 0..ps.len()
            invariant
                encodable(ps@),
                all == crate::payload::byte_strings(ps@),
                self@ == noted_all(old(self)@, all.take(i as int)),
                texts(codes@) == base64_texts(fresh(old(self)@, all.take(i as int))),
        {
            let ghost before = codes@;
            proof {
                assert(all.take(i + 1).drop_last() =~= all.take(i as int));
                assert(all.take(i + 1).last() == ps@[i as int]@);
            }
            if self.note(ps[i].as_slice()) {
                let code: String = encode(ps[i].as_slice());
                codes.push(code);
                assert(texts(codes@) =~= texts(before).push(base64_text(ps@[i as int]@)));
                assert(texts(codes@) =~= base64_texts(fresh(old(self)@, all.take(i + 1))));
            }
        }
        assert(all.take(ps@.len() as int) =~= all);
        codes
    }
}

/// The first frame of another session is forwarded, and all that was seen before is forgotten.
pub proof fn law_new_session_starts_over(seen: (u16, Set<u32>), payload: Seq<u8>)
    requires
        frame_key(payload) matches Some((session, _)) && session != seen.0,
    ensures
        is_new(seen, payload),
        noted(seen, payload) == (
            (frame_key(payload)->0).0,
            Set::<u32>::empty().insert((frame_key(payload)->0).1),
        ),
{
}

/// A payload without a readable head is forwarded always, and leaves no trace.
pub proof fn law_headless_payloads_pass(seen: (u16, Set<u32>), payload: Seq<u8>)
    requires
        frame_key(payload) is None,
    ensures
        is_new(seen, payload),
        noted(seen, payload) == seen,
{
}

/// It makes no difference how the payloads are shared out among camera frames.
pub proof fn law_batches_do_not_matter(seen: (u16, Set<u32>), a: Seq<Seq<u8>>, b: Seq<Seq<u8>>)
    ensures
        noted_all(seen, a + b) == noted_all(noted_all(seen, a), b),
        fresh(seen, a + b) == fresh(seen, a) + fresh(noted_all(seen, a), b),
    decreases b.len(),
{
    if b.len() == 0 {
        assert(a + b =~= a);
        assert(fresh(seen, a) + fresh(noted_all(seen, a), b) =~= fresh(seen, a));
    } else {
        law_batches_do_not_matter(seen, a, b.drop_last());
        assert((a + b).drop_last() =~= a + b.drop_last());
        assert(fresh(seen, a + b) =~= fresh(seen, a) + fresh(noted_all(seen, a), b));
    }
}

/// Whether all frames of `ps` are of one session.
pub open spec fn one_session(ps: Seq<Seq<u8>>, session: u16) -> bool {
    forall|i: int|
        0 <= i < ps.len() ==> (frame_key(#[trigger] ps[i]) matches Some((s, _)) ==> s == session)
}

/// What holds of all that was forwarded and noted of one session.
proof fn lemma_one_session(seen: (u16, Set<u32>), ps: Seq<Seq<u8>>, session: u16)
    requires
        one_session(ps, session),
    ensures
        noted_all(seen, ps) == seen || noted_all(seen, ps).0 == session,
        seen.0 == session ==> noted_all(seen, ps).0 == session && seen.1.subset_of(
            noted_all(seen, ps).1,
        ),
        forall|i: int|
            0 <= i < fresh(seen, ps).len() ==> (frame_key(#[trigger] fresh(seen, ps)[i]) matches Some(
                (s, seq),
            ) ==> s == session && noted_all(seen, ps).0 == session && noted_all(seen, ps).1.contains(
                seq,
            ) && (seen.0 == session ==> !seen.1.contains(seq))),
        forall|i: int, j: int|
            0 <= i < j < fresh(seen, ps).len() && frame_key(#[trigger] fresh(seen, ps)[i]) is Some
                ==> frame_key(fresh(seen, ps)[i]) != frame_key(#[trigger] fresh(seen, ps)[j]),
    decreases ps.len(),
{
    if ps.len() > 0 {
        let before = ps.drop_last();
        assert forall|i: int| 0 <= i < before.len() implies (frame_key(#[trigger] before[i]) matches Some(
            (s, _),
        ) ==> s == session) by {
            assert(before[i] == ps[i]);
        }
        lemma_one_session(seen, before, session);
        assert(ps.last() == ps[ps.len() - 1]);
    }
}

/// A frame that was noted is not forwarded again, whatever else of its session comes in between.
pub proof fn law_noted_frames_are_not_new(
    seen: (u16, Set<u32>),
    payload: Seq<u8>,
    between: Seq<Seq<u8>>,
)
    requires
        frame_key(payload) is Some,
        one_session(between, (frame_key(payload)->0).0),
    ensures
        !is_new(noted_all(noted(seen, payload), between), payload),
{
    lemma_one_session(noted(seen, payload), between, (frame_key(payload)->0).0);
}

/// Each frame of a session is forwarded at most once: no two of the payloads that are forwarded are
/// the same frame, and none is a frame of the session that was seen before.
pub proof fn law_each_frame_once(seen: (u16, Set<u32>), ps: Seq<Seq<u8>>, session: u16)
    requires
        one_session(ps, session),
    ensures
        forall|i: int, j: int|
            0 <= i < j < fresh(seen, ps).len() && frame_key(#[trigger] fresh(seen, ps)[i]) is Some
                ==> frame_key(fresh(seen, ps)[i]) != frame_key(#[trigger] fresh(seen, ps)[j]),
        forall|i: int|
            0 <= i < fresh(seen, ps).len() ==> (frame_key(#[trigger] fresh(seen, ps)[i]) matches Some(
                (_, seq),
            ) ==> !(seen.0 == session && seen.1.contains(seq))),
{
    lemma_one_session(seen, ps, session);
}

/// What was noted was forwarded, or seen before.
proof fn lemma_noted_was_forwarded(seen: (u16, Set<u32>), ps: Seq<Seq<u8>>, seq: u32)
    requires
        noted_all(seen, ps).1.contains(seq),
    ensures
        seen.0 == noted_all(seen, ps).0 && seen.1.contains(seq) || exists|j: int|
            0 <= j < fresh(seen, ps).len() && frame_key(#[trigger] fresh(seen, ps)[j]) == Some(
                (noted_all(seen, ps).0, seq),
            ),
    decreases ps.len(),
{
    if ps.len() > 0 {
        let before = ps.drop_last();
        let shorter = fresh(seen, before);
        let longer = fresh(seen, ps);
        let mid = noted_all(seen, before);
        if frame_key(ps.last()) == Some((noted_all(seen, ps).0, seq)) && is_new(mid, ps.last()) {
            assert(longer[longer.len() - 1] == ps.last());
        } else {
            assert(mid.0 == noted_all(seen, ps).0 && mid.1.contains(seq));
            lemma_noted_was_forwarded(seen, before, seq);
            if !(seen.0 == mid.0 && seen.1.contains(seq)) {
                let j = choose|j: int|
                    0 <= j < shorter.len() && frame_key(#[trigger] shorter[j]) == Some((mid.0, seq));
                assert(longer[j] == shorter[j]);
            }
        }
    }
}

/// No frame is lost: every payload is forwarded itself, or is a frame that was forwarded before it
/// or seen before all of them.
pub proof fn law_no_frame_is_lost(seen: (u16, Set<u32>), ps: Seq<Seq<u8>>, i: int)
    requires
        0 <= i < ps.len(),
    ensures
        match frame_key(ps[i]) {
            None => exists|j: int|
                0 <= j < fresh(seen, ps).len() && #[trigger] fresh(seen, ps)[j] == ps[i],
            Some((session, seq)) => seen.0 == session && seen.1.contains(seq) || exists|j: int|
                0 <= j < fresh(seen, ps).len() && frame_key(#[trigger] fresh(seen, ps)[j])
                    == frame_key(ps[i]),
        },
{
    let a = ps.take(i);
    let b = ps.skip(i + 1);
    let here = a.push(ps[i]);
    assert(ps =~= here + b);
    law_batches_do_not_matter(seen, here, b);
    assert(here.drop_last() =~= a);
    let first = fresh(seen, here);
    let all = fresh(seen, ps);
    assert forall|j: int| 0 <= j < first.len() implies all[j] == first[j] by {}
    if is_new(noted_all(seen, a), ps[i]) {
        assert(first[first.len() - 1] == ps[i]);
        assert(all[first.len() - 1] == ps[i]);
    } else {
        let (session, seq) = frame_key(ps[i])->0;
        lemma_noted_was_forwarded(seen, a, seq);
        if !(seen.0 == session && seen.1.contains(seq)) {
            let j = choose|j: int|
                0 <= j < fresh(seen, a).len() && frame_key(#[trigger] fresh(seen, a)[j]) == Some(
                    (session, seq),
                );
            assert(first[j] == fresh(seen, a)[j]);
            assert(all[j] == first[j]);
        }
    }
}

/// No more is forwarded than was decoded.
pub proof fn law_forwards_no_more_than_decoded(seen: (u16, Set<u32>), ps: Seq<Seq<u8>>)
    ensures
        fresh(seen, ps).len() <= ps.len(),
    decreases ps.len(),
{
    if ps.len() > 0 {
        law_forwards_no_more_than_decoded(seen, ps.drop_last());
    }
}

/// Whether the frames among `ps[a]` up to `ps[b]` are all of one session.
pub open spec fn stays_in_session(ps: Seq<Seq<u8>>, a: int, b: int, session: u16) -> bool {
    forall|m: int|
        a <= m < b ==> (frame_key(#[trigger] ps[m]) matches Some((s, _)) ==> s == session)
}

/// Whether a frame was sighted before `ps[n]`: it is among the payloads before, or was seen before all
/// of them, and no frame of another session came in between.
pub open spec fn sighted(seen: (u16, Set<u32>), ps: Seq<Seq<u8>>, n: int, session: u16, seq: u32) -> bool {
    ||| seen.0 == session && seen.1.contains(seq) && stays_in_session(ps, 0, n, session)
    ||| exists|j: int|
        0 <= j < n && frame_key(#[trigger] ps[j]) == Some((session, seq)) && stays_in_session(
            ps,
            j + 1,
            n,
            session,
        )
}

/// What was noted is what was sighted.
proof fn lemma_noted_is_sighted(
    seen: (u16, Set<u32>),
    ps: Seq<Seq<u8>>,
    n: int,
    session: u16,
    seq: u32,
)
    requires
        0 <= n <= ps.len(),
    ensures
        noted_all(seen, ps.take(n)).0 == session && noted_all(seen, ps.take(n)).1.contains(seq)
            <==> sighted(seen, ps, n, session, seq),
    decreases n,
{
    if n > 0 {
        let p = ps[n - 1];
        lemma_noted_is_sighted(seen, ps, n - 1, session, seq);
        assert(ps.take(n).drop_last() =~= ps.take(n - 1));
        assert(ps.take(n).last() == p);
        let before = noted_all(seen, ps.take(n - 1));
        let after = noted_all(seen, ps.take(n));
        let other = frame_key(p) matches Some((s, _)) && s != session;
        if sighted(seen, ps, n - 1, session, seq) && !other {
            if seen.0 == session && seen.1.contains(seq) && stays_in_session(ps, 0, n - 1, session) {
                assert(stays_in_session(ps, 0, n, session));
            } else {
                let j = choose|j: int|
                    0 <= j < n - 1 && frame_key(#[trigger] ps[j]) == Some((session, seq))
                        && stays_in_session(ps, j + 1, n - 1, session);
                assert(stays_in_session(ps, j + 1, n, session));
            }
            assert(sighted(seen, ps, n, session, seq));
        }
        if frame_key(p) == Some((session, seq)) {
            assert(stays_in_session(ps, n, n, session));
            assert(sighted(seen, ps, n, session, seq));
        }
        if sighted(seen, ps, n, session, seq) && frame_key(p) != Some((session, seq)) {
            if seen.0 == session && seen.1.contains(seq) && stays_in_session(ps, 0, n, session) {
                assert(stays_in_session(ps, 0, n - 1, session));
                assert(!other);
            } else {
                let j = choose|j: int|
                    0 <= j < n && frame_key(#[trigger] ps[j]) == Some((session, seq))
                        && stays_in_session(ps, j + 1, n, session);
                assert(j < n - 1);
                assert(stays_in_session(ps, j + 1, n - 1, session));
                assert(!other);
            }
            assert(sighted(seen, ps, n - 1, session, seq));
        }
    }
}

/// Whether `ps[i]` is to be forwarded: it has no head, or its frame was not sighted before.
pub open spec fn first_sighting(seen: (u16, Set<u32>), ps: Seq<Seq<u8>>, i: int) -> bool {
    frame_key(ps[i]) matches Some((session, seq)) ==> !sighted(seen, ps, i, session, seq)
}

/// Whether `places` are places of `ps` in order, and `picked` the payloads that stand there.
pub open spec fn picks(ps: Seq<Seq<u8>>, places: Seq<int>, picked: Seq<Seq<u8>>) -> bool {
    &&& places.len() == picked.len()
    &&& forall|a: int, b: int|
        0 <= a < b < places.len() ==> #[trigger] places[a] < #[trigger] places[b]
    &&& forall|a: int|
        0 <= a < places.len() ==> 0 <= #[trigger] places[a] < ps.len() && picked[a] == ps[places[a]]
}

/// The places of the payloads that are forwarded.
spec fn fresh_places(seen: (u16, Set<u32>), ps: Seq<Seq<u8>>) -> Seq<int>
    decreases ps.len(),
{
    if ps.len() == 0 {
        Seq::empty()
    } else {
        let before = fresh_places(seen, ps.drop_last());
        if is_new(noted_all(seen, ps.drop_last()), ps.last()) {
            before.push(ps.len() - 1)
        } else {
            before
        }
    }
}

/// The places are in order, and hold what is forwarded of the first `n` payloads.
proof fn lemma_fresh_places(seen: (u16, Set<u32>), ps: Seq<Seq<u8>>, n: int)
    requires
        0 <= n <= ps.len(),
    ensures
        picks(ps, fresh_places(seen, ps.take(n)), fresh(seen, ps.take(n))),
        forall|a: int|
            0 <= a < fresh_places(seen, ps.take(n)).len() ==> #[trigger] fresh_places(
                seen,
                ps.take(n),
            )[a] < n,
        forall|i: int|
            0 <= i < n ==> (#[trigger] first_sighting(seen, ps, i) <==> fresh_places(
                seen,
                ps.take(n),
            ).contains(i)),
    decreases n,
{
    if n > 0 {
        lemma_fresh_places(seen, ps, n - 1);
        assert(ps.take(n).drop_last() =~= ps.take(n - 1));
        let p = ps[n - 1];
        assert(ps.take(n).last() == p);
        let shorter = fresh_places(seen, ps.take(n - 1));
        let longer = fresh_places(seen, ps.take(n));
        if let Some((session, seq)) = frame_key(p) {
            lemma_noted_is_sighted(seen, ps, n - 1, session, seq);
        }
        assert(is_new(noted_all(seen, ps.take(n - 1)), p) <==> first_sighting(seen, ps, n - 1));
        assert forall|i: int| 0 <= i < n implies (#[trigger] first_sighting(seen, ps, i)
            <==> longer.contains(i)) by {
            if i < n - 1 {
                if shorter.contains(i) {
                    assert(longer[shorter.index_of(i)] == i);
                } else if longer.contains(i) {
                    let a = longer.index_of(i);
                    assert(a < shorter.len());
                    assert(shorter[a] == i);
                }
            } else if longer.len() > shorter.len() {
                assert(longer[shorter.len() as int] == n - 1);
            }
        }
    }
}

/// What is forwarded is taken unchanged from what was decoded, byte for byte and in order, and it is
/// exactly the first sightings: every payload whose frame was not sighted before in its session, and
/// every payload without a head.
pub proof fn law_first_sightings_are_forwarded_whole(seen: (u16, Set<u32>), ps: Seq<Seq<u8>>)
    ensures
        exists|places: Seq<int>| #[trigger]
            picks(ps, places, fresh(seen, ps)) && forall|i: int|
                0 <= i < ps.len() ==> (#[trigger] first_sighting(seen, ps, i) <==> places.contains(i)),
{
    lemma_fresh_places(seen, ps, ps.len() as int);
    assert(ps.take(ps.len() as int) =~= ps);
    assert(picks(ps, fresh_places(seen, ps), fresh(seen, ps)));
}

/// A payload that is sighted for the first time is forwarded itself, with every byte of it, and not
/// merely another with the same head.
pub proof fn law_first_sighting_is_forwarded_itself(seen: (u16, Set<u32>), ps: Seq<Seq<u8>>, i: int)
    requires
        0 <= i < ps.len(),
        first_sighting(seen, ps, i),
    ensures
        fresh(seen, ps).contains(ps[i]),
{
    law_first_sightings_are_forwarded_whole(seen, ps);
    let places = choose|places: Seq<int>| #[trigger]
        picks(ps, places, fresh(seen, ps)) && forall|i: int|
            0 <= i < ps.len() ==> (#[trigger] first_sighting(seen, ps, i) <==> places.contains(i));
    let a = places.index_of(i);
    assert(fresh(seen, ps)[a] == ps[places[a]]);
}

/// Nothing is forwarded that was not decoded.
pub proof fn law_nothing_is_made_up(seen: (u16, Set<u32>), ps: Seq<Seq<u8>>, j: int)
    requires
        0 <= j < fresh(seen, ps).len(),
    ensures
        exists|i: int| 0 <= i < ps.len() && #[trigger] ps[i] == fresh(seen, ps)[j],
{
    law_first_sightings_are_forwarded_whole(seen, ps);
    let places = choose|places: Seq<int>| #[trigger] picks(ps, places, fresh(seen, ps));
    assert(ps[places[j]] == fresh(seen, ps)[j]);
}

/// What is remembered is what was sighted: nothing else keeps a frame from being forwarded.
pub proof fn law_remembered_is_sighted(
    seen: (u16, Set<u32>),
    ps: Seq<Seq<u8>>,
    session: u16,
    seq: u32,
)
    ensures
        noted_all(seen, ps).0 == session && noted_all(seen, ps).1.contains(seq) <==> sighted(
            seen,
            ps,
            ps.len() as int,
            session,
            seq,
        ),
{
    lemma_noted_is_sighted(seen, ps, ps.len() as int, session, seq);
    assert(ps.take(ps.len() as int) =~= ps);
}

/// The texts of payloads stand in the order of the payloads, one for each, and tell every byte of them.
pub proof fn law_texts_tell_the_payloads(a: Seq<Seq<u8>>, b: Seq<Seq<u8>>)
    ensures
        base64_texts(a).len() == a.len(),
        forall|i: int| 0 <= i < a.len() ==> #[trigger] base64_texts(a)[i] == base64_text(a[i]),
        base64_texts(a) == base64_texts(b) ==> a == b,
{
    if base64_texts(a) == base64_texts(b) {
        assert(a.len() == base64_texts(a).len() && b.len() == base64_texts(b).len());
        assert forall|i: int| 0 <= i < a.len() implies a[i] == b[i] by {
            assert(base64_texts(a)[i] == base64_texts(b)[i]);
            law_base64_keeps_everything(a[i], b[i]);
        }
        assert(a =~= b);
    }
}

/// Payloads that fill less than half of memory can all be encoded.
pub proof fn law_ordinary_payloads_can_be_encoded(ps: Seq<Vec<u8>>)
    requires
        forall|i: int| 0 <= i < ps.len() ==> (#[trigger] ps[i])@.len() <= isize::MAX / 2,
    ensures
        encodable(ps),
{
    assert forall|i: int| 0 <= i < ps.len() implies base64_len(#[trigger] ps[i]@.len() as int)
        <= isize::MAX by {
        assert(ps[i]@.len() <= isize::MAX / 2);
    }
}

} // verus!
