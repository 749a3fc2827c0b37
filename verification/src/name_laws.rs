//! What holds of the name codec: written names read back as themselves,
//! pointers to earlier names resolve to those names, pointer cycles are
//! reported, and every name read is one that can be written.

use crate::error::DnsError;
use crate::name::{
    decode_name, encode_labels, encode_name, label_ok, labels_len, lemma_encode_labels_concat,
    lemma_encode_labels_len, lemma_visit, name_ok, pointer_target, prepend, visited_ok, walk,
};
use vstd::prelude::*;

verus! {

/// The offsets of the length octets of `labels` when they are written from `pos` on.
pub open spec fn label_offsets(pos: int, labels: Seq<Seq<u8>>) -> Set<int>
    decreases labels.len(),
{
    if labels.len() == 0 {
        Set::empty()
    } else {
        label_offsets(pos + 1 + labels[0].len(), labels.drop_first()).insert(pos)
    }
}

/// The length octets of labels written from `pos` on lie in the octets that
/// the labels take.
pub proof fn lemma_label_offsets(pos: int, labels: Seq<Seq<u8>>)
    ensures
        label_offsets(pos, labels).finite(),
        forall|o: int| #[trigger]
            label_offsets(pos, labels).contains(o) ==> pos <= o < pos + labels_len(labels),
    decreases labels.len(),
{
    if labels.len() > 0 {
        lemma_label_offsets(pos + 1 + labels[0].len(), labels.drop_first());
    }
}

/// Reading over labels that stand uncompressed at `pos` yields those labels
/// and goes on behind them.
pub proof fn lemma_walk_labels(
    buf: Seq<u8>,
    pos: int,
    front: Seq<Seq<u8>>,
    visited: Set<int>,
    used: int,
    resume: Option<int>,
)
    requires
        visited_ok(buf, visited),
        0 <= pos,
        pos + labels_len(front) <= buf.len(),
        buf.subrange(pos, pos + labels_len(front)) == encode_labels(front),
        forall|i: int| 0 <= i < front.len() ==> label_ok(#[trigger] front[i]),
        0 <= used,
        used + labels_len(front) + 1 <= 255,
        forall|o: int| visited.contains(o) ==> o < pos || o >= pos + labels_len(front),
    ensures
        visited_ok(buf, visited.union(label_offsets(pos, front))),
        walk(buf, pos, visited, used, resume) == prepend(
            front,
            walk(
                buf,
                pos + labels_len(front),
                visited.union(label_offsets(pos, front)),
                used + labels_len(front),
                resume,
            ),
        ),
    decreases front.len(),
{
    let end = pos + labels_len(front);
    let after = walk(buf, end, visited.union(label_offsets(pos, front)), used + labels_len(front), resume);
    lemma_encode_labels_len(front);
    if front.len() == 0 {
        assert(visited.union(label_offsets(pos, front)) =~= visited);
        match after {
            Ok((rest, e)) => {
                assert(front + rest =~= rest);
            },
            Err(e) => {},
        }
    } else {
        let first = front[0];
        let rest = front.drop_first();
        let enc = encode_labels(front);
        let next = pos + 1 + first.len();
        lemma_encode_labels_len(rest);
        assert(label_ok(first));
        assert(enc[0] == first.len() as u8);
        assert(buf.subrange(pos, end)[0] == buf[pos]);
        assert(buf[pos] == first.len());
        lemma_visit(buf, visited, pos);
        assert(buf.subrange(pos + 1, next) =~= first) by {
            assert forall|k: int| 0 <= k < first.len() implies buf.subrange(pos + 1, next)[k]
                == first[k] by {
                assert(buf.subrange(pos, end)[k + 1] == enc[k + 1]);
            }
        }
        assert(buf.subrange(next, end) =~= encode_labels(rest)) by {
            assert forall|k: int| 0 <= k < encode_labels(rest).len() implies buf.subrange(
                next,
                end,
            )[k] == encode_labels(rest)[k] by {
                assert(buf.subrange(pos, end)[k + 1 + first.len()] == enc[k + 1 + first.len()]);
            }
        }
        assert forall|i: int| 0 <= i < rest.len() implies label_ok(#[trigger] rest[i]) by {
            assert(rest[i] == front[i + 1]);
        }
        lemma_walk_labels(buf, next, rest, visited.insert(pos), used + 1 + first.len(), resume);
        lemma_label_offsets(next, rest);
        assert(visited.insert(pos).union(label_offsets(next, rest)) =~= visited.union(
            label_offsets(pos, front),
        ));
        match after {
            Ok((tail, e)) => {
                assert(seq![first] + (rest + tail) =~= front + tail);
            },
            Err(e) => {},
        }
    }
}

/// Reading a name that stands uncompressed at `pos` yields the name, and the
/// offset behind its terminating octet unless a pointer was followed before.
pub proof fn lemma_walk_encoded_name(
    buf: Seq<u8>,
    pos: int,
    name: Seq<Seq<u8>>,
    visited: Set<int>,
    used: int,
    resume: Option<int>,
)
    requires
        visited_ok(buf, visited),
        0 <= pos,
        pos + labels_len(name) + 1 <= buf.len(),
        buf.subrange(pos, pos + labels_len(name) + 1) == encode_name(name),
        forall|i: int| 0 <= i < name.len() ==> label_ok(#[trigger] name[i]),
        0 <= used,
        used + labels_len(name) + 1 <= 255,
        forall|o: int| visited.contains(o) ==> o < pos || o >= pos + labels_len(name) + 1,
    ensures
        walk(buf, pos, visited, used, resume) == Ok::<(Seq<Seq<u8>>, int), DnsError>(
            (
                name,
                match resume {
                    Some(r) => r,
                    None => pos + labels_len(name) + 1,
                },
            ),
        ),
{
    let end = pos + labels_len(name);
    lemma_encode_labels_len(name);
    assert(buf.subrange(pos, end) =~= encode_labels(name)) by {
        assert forall|k: int| 0 <= k < labels_len(name) implies buf.subrange(pos, end)[k]
            == encode_labels(name)[k] by {
            assert(buf.subrange(pos, end + 1)[k] == encode_name(name)[k]);
        }
    }
    assert(buf[end] == 0) by {
        assert(buf.subrange(pos, end + 1)[end - pos] == encode_name(name)[end - pos]);
    }
    lemma_walk_labels(buf, pos, name, visited, used, resume);
    lemma_label_offsets(pos, name);
    assert(name + Seq::<Seq<u8>>::empty() =~= name);
}

/// A name written without compression reads back as itself, wherever it
/// stands in a buffer, and reading stops behind its terminating octet.
pub proof fn lemma_decode_encoded_name(buf: Seq<u8>, pos: int, name: Seq<Seq<u8>>)
    requires
        name_ok(name),
        0 <= pos,
        pos + encode_name(name).len() <= buf.len(),
        buf.subrange(pos, pos + encode_name(name).len()) == encode_name(name),
    ensures
        decode_name(buf, pos) == Ok::<(Seq<Seq<u8>>, int), DnsError>(
            (name, pos + encode_name(name).len()),
        ),
{
    lemma_encode_labels_len(name);
    lemma_walk_encoded_name(buf, pos, name, Set::empty(), 0, None);
}

/// Reading a name of which only a part stands before the end of the buffer
/// fails with `TruncatedMessage`.
pub proof fn lemma_walk_cut_name(
    buf: Seq<u8>,
    pos: int,
    name: Seq<Seq<u8>>,
    visited: Set<int>,
    used: int,
    resume: Option<int>,
)
    requires
        visited_ok(buf, visited),
        0 <= pos <= buf.len(),
        buf.len() - pos < labels_len(name) + 1,
        buf.subrange(pos, buf.len() as int) == encode_name(name).subrange(0, buf.len() - pos),
        forall|i: int| 0 <= i < name.len() ==> label_ok(#[trigger] name[i]),
        0 <= used,
        used + labels_len(name) + 1 <= 255,
        forall|o: int| visited.contains(o) ==> o < pos,
    ensures
        walk(buf, pos, visited, used, resume) == Err::<(Seq<Seq<u8>>, int), DnsError>(
            DnsError::TruncatedMessage,
        ),
    decreases name.len(),
{
    let k = buf.len() - pos;
    let enc = encode_name(name);
    lemma_encode_labels_len(name);
    if k > 0 && name.len() > 0 {
        let first = name[0];
        let rest = name.drop_first();
        let next = pos + 1 + first.len();
        lemma_encode_labels_len(rest);
        assert(label_ok(first));
        assert(enc[0] == first.len() as u8);
        assert(buf[pos] == enc[0]) by {
            assert(buf.subrange(pos, buf.len() as int)[0] == enc.subrange(0, k)[0]);
        }
        lemma_visit(buf, visited, pos);
        if next <= buf.len() {
            assert(buf.subrange(pos + 1, next) =~= first) by {
                assert forall|j: int| 0 <= j < first.len() implies buf.subrange(pos + 1, next)[j]
                    == first[j] by {
                    assert(buf.subrange(pos, buf.len() as int)[j + 1] == enc.subrange(0, k)[j
                        + 1]);
                }
            }
            assert(buf.subrange(next, buf.len() as int) =~= encode_name(rest).subrange(
                0,
                buf.len() - next,
            )) by {
                assert forall|j: int| 0 <= j < buf.len() - next implies buf.subrange(
                    next,
                    buf.len() as int,
                )[j] == encode_name(rest)[j] by {
                    assert(buf.subrange(pos, buf.len() as int)[j + 1 + first.len()]
                        == enc.subrange(0, k)[j + 1 + first.len()]);
                }
            }
            assert forall|i: int| 0 <= i < rest.len() implies label_ok(#[trigger] rest[i]) by {
                assert(rest[i] == name[i + 1]);
            }
            lemma_walk_cut_name(buf, next, rest, visited.insert(pos), used + 1 + first.len(), resume);
        }
    }
}

/// A name that was written and then cut short by the end of the buffer
/// reads as `TruncatedMessage`.
pub proof fn lemma_decode_cut_name(buf: Seq<u8>, pos: int, name: Seq<Seq<u8>>)
    requires
        name_ok(name),
        0 <= pos <= buf.len(),
        buf.len() - pos < encode_name(name).len(),
        buf.subrange(pos, buf.len() as int) == encode_name(name).subrange(0, buf.len() - pos),
    ensures
        decode_name(buf, pos) == Err::<(Seq<Seq<u8>>, int), DnsError>(DnsError::TruncatedMessage),
{
    lemma_encode_labels_len(name);
    lemma_walk_cut_name(buf, pos, name, Set::empty(), 0, None);
}

/// A pointer at `pos` to the offset `target`.
pub open spec fn is_pointer(buf: Seq<u8>, pos: int, target: int) -> bool {
    &&& 0 <= pos
    &&& pos + 1 < buf.len()
    &&& buf[pos] >= 192
    &&& pointer_target(buf, pos) == target
}

/// Compression resolves to the uncompressed name: where `name` stands
/// uncompressed at `target`, labels `front` written at a later offset `at`
/// and followed by a pointer to `target` read as `front` followed by `name`,
/// and reading stops behind the pointer.
pub proof fn lemma_pointer_to_earlier_name(
    buf: Seq<u8>,
    at: int,
    front: Seq<Seq<u8>>,
    target: int,
    name: Seq<Seq<u8>>,
)
    requires
        name_ok(front + name),
        0 <= target,
        target + encode_name(name).len() <= at,
        buf.subrange(target, target + encode_name(name).len()) == encode_name(name),
        at + encode_labels(front).len() + 2 <= buf.len(),
        buf.subrange(at, at + encode_labels(front).len()) == encode_labels(front),
        is_pointer(buf, at + encode_labels(front).len(), target),
    ensures
        decode_name(buf, at) == Ok::<(Seq<Seq<u8>>, int), DnsError>(
            (front + name, at + encode_labels(front).len() + 2),
        ),
{
    let ptr = at + labels_len(front);
    let whole = front + name;
    lemma_encode_labels_len(front);
    lemma_encode_labels_len(name);
    lemma_encode_labels_concat(front, name);
    assert forall|i: int| 0 <= i < front.len() implies label_ok(#[trigger] front[i]) by {
        assert(front[i] == whole[i]);
    }
    assert forall|i: int| 0 <= i < name.len() implies label_ok(#[trigger] name[i]) by {
        assert(name[i] == whole[i + front.len()]);
    }
    let none: Option<int> = None;
    lemma_walk_labels(buf, at, front, Set::empty(), 0, none);
    lemma_label_offsets(at, front);
    let offsets = Set::<int>::empty().union(label_offsets(at, front));
    lemma_visit(buf, offsets, ptr);
    lemma_walk_encoded_name(
        buf,
        target,
        name,
        offsets.insert(ptr),
        labels_len(front) as int,
        Some(ptr + 2),
    );
}

/// Reading along a chain of pointers of which the last refers back into the
/// chain stops with `CompressionLoop`.
pub proof fn lemma_walk_pointer_cycle(
    buf: Seq<u8>,
    chain: Seq<int>,
    back: int,
    i: int,
    visited: Set<int>,
    used: int,
    resume: Option<int>,
)
    requires
        0 <= back < chain.len(),
        0 <= i < chain.len(),
        forall|k: int| 0 <= k < chain.len() - 1 ==> is_pointer(buf, #[trigger] chain[k], chain[k + 1]),
        is_pointer(buf, chain.last(), chain[back]),
        visited_ok(buf, visited),
        forall|k: int| 0 <= k < i ==> visited.contains(#[trigger] chain[k]),
    ensures
        walk(buf, chain[i], visited, used, resume) == Err::<(Seq<Seq<u8>>, int), DnsError>(
            DnsError::CompressionLoop,
        ),
    decreases chain.len() - i,
{
    let pos = chain[i];
    assert(is_pointer(buf, pos, pointer_target(buf, pos))) by {
        if i < chain.len() - 1 {
            assert(is_pointer(buf, chain[i], chain[i + 1]));
        }
    }
    if !visited.contains(pos) {
        lemma_visit(buf, visited, pos);
        let seen = visited.insert(pos);
        let then = match resume {
            Some(r) => Some(r),
            None => Some(pos + 2),
        };
        if i < chain.len() - 1 {
            assert(is_pointer(buf, chain[i], chain[i + 1]));
            assert forall|k: int| 0 <= k < i + 1 implies seen.contains(#[trigger] chain[k]) by {
                if k < i {
                    assert(visited.contains(chain[k]));
                }
            }
            lemma_walk_pointer_cycle(buf, chain, back, i + 1, seen, used, then);
        } else {
            let target = chain[back];
            assert(is_pointer(buf, target, pointer_target(buf, target))) by {
                if back < chain.len() - 1 {
                    assert(is_pointer(buf, chain[back], chain[back + 1]));
                }
            }
            assert(seen.contains(target)) by {
                if back < i {
                    assert(visited.contains(chain[back]));
                }
            }
            assert(pointer_target(buf, pos) == target);
            assert(walk(buf, target, seen, used, then) == Err::<(Seq<Seq<u8>>, int), DnsError>(
                DnsError::CompressionLoop,
            ));
        }
    }
}

/// A chain of pointers that leads back into itself is reported: where each
/// offset of `chain` holds a pointer to the next, and the last a pointer to
/// the offset `chain[back]`, reading a name at `chain[0]` fails with
/// `CompressionLoop`.
pub proof fn lemma_pointer_cycle(buf: Seq<u8>, chain: Seq<int>, back: int)
    requires
        0 <= back < chain.len(),
        forall|k: int| 0 <= k < chain.len() - 1 ==> is_pointer(buf, #[trigger] chain[k], chain[k + 1]),
        is_pointer(buf, chain.last(), chain[back]),
    ensures
        decode_name(buf, chain[0]) == Err::<(Seq<Seq<u8>>, int), DnsError>(
            DnsError::CompressionLoop,
        ),
{
    lemma_walk_pointer_cycle(buf, chain, back, 0, Set::empty(), 0, None);
}

/// What a successful read returns: labels of 1 to 63 octets that fit in the
/// 255 octets together with those read before, and an offset that is the one
/// fixed by the first pointer or lies behind `pos` inside the buffer.
pub proof fn lemma_walk_result(
    buf: Seq<u8>,
    pos: int,
    visited: Set<int>,
    used: int,
    resume: Option<int>,
)
    requires
        visited_ok(buf, visited),
        0 <= used <= 254,
        walk(buf, pos, visited, used, resume) is Ok,
    ensures
        ({
            let (name, end) = walk(buf, pos, visited, used, resume)->Ok_0;
            &&& forall|i: int| 0 <= i < name.len() ==> label_ok(#[trigger] name[i])
            &&& used + labels_len(name) + 1 <= 255
            &&& match resume {
                Some(r) => end == r,
                None => pos < end <= buf.len(),
            }
        }),
    decreases buf.len() - visited.len(),
{
    if buf[pos] == 0 {
    } else if buf[pos] < 64 {
        lemma_visit(buf, visited, pos);
        let label = buf.subrange(pos + 1, pos + 1 + buf[pos]);
        let next = pos + 1 + buf[pos];
        let inner = walk(buf, next, visited.insert(pos), used + 1 + buf[pos], resume);
        lemma_walk_result(buf, next, visited.insert(pos), used + 1 + buf[pos], resume);
        let (rest, end) = inner->Ok_0;
        let name = seq![label] + rest;
        assert(name.drop_first() =~= rest);
        assert(name[0] == label);
        assert forall|i: int| 0 <= i < name.len() implies label_ok(#[trigger] name[i]) by {
            if i > 0 {
                assert(name[i] == rest[i - 1]);
            }
        }
    } else {
        lemma_visit(buf, visited, pos);
        let then = match resume {
            Some(r) => Some(r),
            None => Some(pos + 2),
        };
        lemma_walk_result(buf, pointer_target(buf, pos), visited.insert(pos), used, then);
    }
}

/// Every name read can be written, and reading it moves forward inside the buffer.
pub proof fn lemma_decoded_name_ok(buf: Seq<u8>, start: int)
    requires
        decode_name(buf, start) is Ok,
    ensures
        name_ok(decode_name(buf, start)->Ok_0.0),
        start < decode_name(buf, start)->Ok_0.1 <= buf.len(),
{
    lemma_walk_result(buf, start, Set::empty(), 0, None);
}

} // verus!
