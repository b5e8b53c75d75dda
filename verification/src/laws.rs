//! What holds of the generator over whole runs: statements that relate
//! several calls of `generate` and `validate`, proved from their contracts.

use crate::generator::{backlog_after_validate, matches_head, pattern, Generator};
use vstd::prelude::*;

verus! {

/// The backlog that is left when `pieces` are validated one after the other
/// against `backlog`, or `None` as soon as one of them fails.
pub open spec fn validate_each(backlog: Seq<u8>, pieces: Seq<Seq<u8>>) -> Option<Seq<u8>>
    decreases pieces.len(),
{
    if pieces.len() == 0 {
        Some(backlog)
    } else if matches_head(backlog, pieces.first()) {
        validate_each(backlog_after_validate(backlog, pieces.first()), pieces.drop_first())
    } else {
        None
    }
}

/// Two stretches of the pattern, one after the other, are a stretch of the
/// pattern.
pub proof fn lemma_pattern_concat(a: nat, b: nat)
    ensures
        pattern(a) + pattern(b) == pattern(a + b),
{
    assert(pattern(a) + pattern(b) =~= pattern(a + b));
}

/// The backlog of a valid generator follows the pattern.
pub proof fn lemma_backlog_follows_pattern(g: Generator)
    requires
        g.wf(),
    ensures
        g@ == pattern(g@.len()),
{
    assert(g@ =~= pattern(g@.len()));
}

/// A validation succeeds exactly when the bytes received are the oldest
/// bytes produced that no validation has consumed yet, in order.
pub proof fn lemma_success_means_oldest_unvalidated(g: Generator, received: Seq<u8>)
    requires
        g.wf(),
    ensures
        matches_head(g@, received) <==> {
            &&& g.consumed() + received.len() <= g.produced().len()
            &&& received == g.produced().subrange(
                g.consumed(),
                g.consumed() + received.len(),
            )
        },
{
    let n = received.len() as int;
    if n <= g@.len() {
        assert(g@.subrange(0, n) =~= g.produced().subrange(g.consumed(), g.consumed() + n));
    }
}

/// Validating piece after piece succeeds exactly when the pieces, joined in
/// order, stand at the head of the backlog; what is left is then the backlog
/// without those bytes.
pub proof fn lemma_validate_each(backlog: Seq<u8>, pieces: Seq<Seq<u8>>)
    ensures
        validate_each(backlog, pieces) is Some <==> matches_head(backlog, pieces.flatten()),
        validate_each(backlog, pieces) is Some ==> validate_each(backlog, pieces) == Some(
            backlog.skip(pieces.flatten().len() as int),
        ),
    decreases pieces.len(),
{
    if pieces.len() == 0 {
        assert(pieces.flatten() =~= Seq::<u8>::empty());
        assert(backlog.skip(0) =~= backlog);
        assert(backlog.subrange(0, 0) =~= Seq::<u8>::empty());
    } else {
        let head = pieces.first();
        let rest = pieces.drop_first();
        let joined = pieces.flatten();
        assert(joined == head + rest.flatten());
        if matches_head(backlog, head) {
            let left = backlog.skip(head.len() as int);
            lemma_validate_each(left, rest);
            if matches_head(left, rest.flatten()) {
                assert(backlog.subrange(0, joined.len() as int) =~= joined) by {
                    assert forall|i: int| 0 <= i < joined.len() implies backlog[i] == joined[i] by {
                        if i < head.len() {
                            assert(backlog.subrange(0, head.len() as int)[i] == head[i]);
                        } else {
                            assert(left.subrange(0, rest.flatten().len() as int)[i - head.len()]
                                == rest.flatten()[i - head.len()]);
                        }
                    }
                }
                assert(left.skip(rest.flatten().len() as int) =~= backlog.skip(
                    joined.len() as int,
                ));
            }
            if matches_head(backlog, joined) {
                assert(left.subrange(0, rest.flatten().len() as int) =~= rest.flatten()) by {
                    assert forall|i: int| 0 <= i < rest.flatten().len() implies left[i]
                        == rest.flatten()[i] by {
                        assert(backlog.subrange(0, joined.len() as int)[i + head.len()]
                            == joined[i + head.len()]);
                    }
                }
            }
        } else {
            if matches_head(backlog, joined) {
                assert(backlog.subrange(0, head.len() as int) =~= head) by {
                    assert forall|i: int| 0 <= i < head.len() implies backlog[i] == head[i] by {
                        assert(backlog.subrange(0, joined.len() as int)[i] == joined[i]);
                    }
                }
            }
        }
    }
}

/// Round trip: when a valid generator hands out `chunks` chunks and exactly
/// those bytes come back, cut into pieces in any way, every piece validates
/// and the backlog is again what it was before the chunks were handed out.
pub proof fn lemma_round_trip(g: Generator, chunks: nat, pieces: Seq<Seq<u8>>)
    requires
        g.wf(),
        pieces.flatten() == pattern(chunks * g.spec_chunk_size()),
    ensures
        validate_each(g@ + pattern(chunks * g.spec_chunk_size()), pieces) == Some(g@),
{
    let n = chunks * g.spec_chunk_size();
    let full = g@ + pattern(n);
    lemma_backlog_follows_pattern(g);
    lemma_pattern_concat(g@.len(), n);
    assert(full.subrange(0, n as int) =~= pattern(n));
    assert(full.skip(n as int) =~= g@);
    lemma_validate_each(full, pieces);
}

/// Round trip from an empty backlog, whatever the bytes are: bytes that were
/// appended to an empty backlog and come back in pieces all validate, and
/// leave the backlog empty.
pub proof fn lemma_round_trip_from_empty(sent: Seq<u8>, pieces: Seq<Seq<u8>>)
    requires
        pieces.flatten() == sent,
    ensures
        validate_each(sent, pieces) == Some(Seq::<u8>::empty()),
{
    assert(sent.subrange(0, sent.len() as int) =~= sent);
    assert(sent.skip(sent.len() as int) =~= Seq::<u8>::empty());
    lemma_validate_each(sent, pieces);
}

/// Appending a chunk leaves every byte that was in the backlog where it was,
/// and a validation, passed or failed, leaves the bytes behind the ones it
/// took as they were, each moved up by the number of bytes taken.
pub proof fn lemma_rest_untouched(backlog: Seq<u8>, chunk: Seq<u8>, received: Seq<u8>)
    ensures
        (backlog + chunk).subrange(0, backlog.len() as int) == backlog,
        received.len() <= backlog.len() ==> backlog_after_validate(backlog, received)
            == backlog.subrange(received.len() as int, backlog.len() as int),
        received.len() <= backlog.len() ==> backlog_after_validate(backlog + chunk, received)
            == backlog_after_validate(backlog, received) + chunk,
{
    assert((backlog + chunk).subrange(0, backlog.len() as int) =~= backlog);
    if received.len() <= backlog.len() {
        assert(backlog_after_validate(backlog + chunk, received) =~= backlog_after_validate(
            backlog,
            received,
        ) + chunk);
    }
}

/// Over a link that returns every byte unchanged and in order, nothing is
/// ever found wrong. The bytes in flight are then always a head of the
/// backlog: handing out a chunk keeps them so, and any number of them that a
/// read brings back validates, leaves the rest in flight at the head of what
/// is left of the backlog, and shortens the backlog by just that number.
pub proof fn lemma_loopback_never_mismatches(
    backlog: Seq<u8>,
    in_flight: Seq<u8>,
    chunk: Seq<u8>,
    read: int,
)
    requires
        in_flight.is_prefix_of(backlog),
        0 <= read <= in_flight.len(),
    ensures
        in_flight.is_prefix_of(backlog + chunk),
        matches_head(backlog, in_flight.take(read)),
        in_flight.skip(read).is_prefix_of(backlog_after_validate(backlog, in_flight.take(read))),
        backlog_after_validate(backlog, in_flight.take(read)).len() == backlog.len() - read,
{
    assert(in_flight =~= backlog.subrange(0, in_flight.len() as int));
    assert(in_flight =~= (backlog + chunk).subrange(0, in_flight.len() as int));
    assert(backlog.subrange(0, read) =~= in_flight.take(read));
    let left = backlog_after_validate(backlog, in_flight.take(read));
    assert(in_flight.skip(read) =~= left.subrange(0, in_flight.skip(read).len() as int));
}

/// A single changed byte is always found: bytes that would validate no
/// longer do once one of them is replaced by another value.
pub proof fn lemma_changed_byte_is_detected(
    backlog: Seq<u8>,
    received: Seq<u8>,
    position: int,
    value: u8,
)
    requires
        matches_head(backlog, received),
        0 <= position < received.len(),
        value != received[position],
    ensures
        !matches_head(backlog, received.update(position, value)),
{
    let changed = received.update(position, value);
    if matches_head(backlog, changed) {
        assert(backlog.subrange(0, received.len() as int)[position] == received[position]);
        assert(backlog.subrange(0, changed.len() as int)[position] == changed[position]);
    }
}

/// More bytes than the backlog holds never validate, and such a request
/// takes nothing from the backlog.
pub proof fn lemma_under_supply_fails(backlog: Seq<u8>, received: Seq<u8>)
    requires
        received.len() > backlog.len(),
    ensures
        !matches_head(backlog, received),
        backlog_after_validate(backlog, received) == backlog,
{
}

} // verus!
