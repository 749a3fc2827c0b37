//! Domain names: a sequence of labels, written on the wire as length-prefixed
//! labels ending in a zero octet, and read from the wire with compression
//! pointers followed.

use crate::error::DnsError;
use crate::wire::{copy_range, put_bytes, same_bytes};
use vstd::prelude::*;
use vstd::set_lib::{lemma_int_range, lemma_len_subset, set_int_range};

verus! {

/// The longest label, in octets.
pub const MAX_LABEL_LEN: usize = 63;

/// The longest encoded name, in octets, length and terminating octets included.
pub const MAX_NAME_LEN: usize = 255;

/// A domain name as its labels, the leftmost first. The root name has none.
#[derive(Debug, PartialEq, Eq)]
pub struct DnsName {
    pub labels: Vec<Vec<u8>>,
}

/// The labels as sequences of octets.
pub open spec fn labels_view(labels: Seq<Vec<u8>>) -> Seq<Seq<u8>> {
    Seq::new(labels.len(), |i: int| labels[i]@)
}

impl View for DnsName {
    type V = Seq<Seq<u8>>;

    open spec fn view(&self) -> Seq<Seq<u8>> {
        labels_view(self.labels@)
    }
}

/// A label holds between 1 and 63 octets.
pub open spec fn label_ok(label: Seq<u8>) -> bool {
    1 <= label.len() <= 63
}

/// The labels on the wire, each behind its length octet, without the
/// terminating zero octet.
pub open spec fn encode_labels(labels: Seq<Seq<u8>>) -> Seq<u8>
    decreases labels.len(),
{
    if labels.len() == 0 {
        Seq::empty()
    } else {
        seq![labels[0].len() as u8] + labels[0] + encode_labels(labels.drop_first())
    }
}

/// A name on the wire: its labels and the terminating zero octet. No
/// compression is produced.
pub open spec fn encode_name(labels: Seq<Seq<u8>>) -> Seq<u8> {
    encode_labels(labels) + seq![0u8]
}

/// The number of octets that the labels take on the wire.
pub open spec fn labels_len(labels: Seq<Seq<u8>>) -> nat
    decreases labels.len(),
{
    if labels.len() == 0 {
        0
    } else {
        1 + labels[0].len() + labels_len(labels.drop_first())
    }
}

/// A name can be written: every label holds 1 to 63 octets and the encoded
/// name at most 255.
pub open spec fn name_ok(labels: Seq<Seq<u8>>) -> bool {
    &&& forall|i: int| 0 <= i < labels.len() ==> label_ok(#[trigger] labels[i])
    &&& labels_len(labels) + 1 <= 255
}

/// `front` put before the items of a successful result.
pub open spec fn prepend<T>(front: Seq<T>, r: Result<(Seq<T>, int), DnsError>) -> Result<
    (Seq<T>, int),
    DnsError,
> {
    match r {
        Ok((rest, end)) => Ok((front + rest, end)),
        Err(e) => Err(e),
    }
}

/// The offsets read so far lie in the buffer.
pub open spec fn visited_ok(buf: Seq<u8>, visited: Set<int>) -> bool {
    visited.finite() && visited.subset_of(set_int_range(0, buf.len() as int))
}

/// The offset that a pointer at `pos` refers to.
pub open spec fn pointer_target(buf: Seq<u8>, pos: int) -> int {
    (buf[pos] - 192) * 256 + buf[pos + 1]
}

/// Reads a name from `pos` on. `visited` holds the offsets at which a length
/// or pointer octet of this name has been read, `used` the octets that the
/// labels read so far take on the wire, and `resume` the offset behind the
/// first pointer, once one has been followed.
///
/// An octet below 64 is the length of a label that follows it, zero ends the
/// name; an octet from 192 on starts a two-octet pointer to the offset at
/// which reading goes on. The second component of the result is the offset
/// behind the terminating zero octet, or behind the first pointer.
pub open spec fn walk(
    buf: Seq<u8>,
    pos: int,
    visited: Set<int>,
    used: int,
    resume: Option<int>,
) -> Result<(Seq<Seq<u8>>, int), DnsError>
    decreases buf.len() - visited.len(),
    when visited_ok(buf, visited)
{
    if pos < 0 || pos >= buf.len() {
        Err(DnsError::TruncatedMessage)
    } else if visited.contains(pos) {
        Err(DnsError::CompressionLoop)
    } else if buf[pos] == 0 {
        Ok(
            (
                Seq::empty(),
                match resume {
                    Some(r) => r,
                    None => pos + 1,
                },
            ),
        )
    } else if buf[pos] < 64 {
        if pos + 1 + buf[pos] > buf.len() {
            Err(DnsError::TruncatedMessage)
        } else if used + buf[pos] + 2 > 255 {
            Err(DnsError::InvalidLabel)
        } else {
            proof {
                lemma_visit(buf, visited, pos);
            }
            prepend(
                seq![buf.subrange(pos + 1, pos + 1 + buf[pos])],
                walk(buf, pos + 1 + buf[pos], visited.insert(pos), used + 1 + buf[pos], resume),
            )
        }
    } else if buf[pos] < 192 {
        Err(DnsError::InvalidLabel)
    } else if pos + 1 >= buf.len() {
        Err(DnsError::TruncatedMessage)
    } else {
        proof {
            lemma_visit(buf, visited, pos);
        }
        walk(
            buf,
            pointer_target(buf, pos),
            visited.insert(pos),
            used,
            match resume {
                Some(r) => Some(r),
                None => Some(pos + 2),
            },
        )
    }
}

/// The name that starts at `start`, and the offset behind it: behind its
/// terminating zero octet, or behind the first pointer where it has one.
///
/// Fails with `TruncatedMessage` where a label, a pointer or a pointer's
/// target lies beyond the buffer, with `InvalidLabel` where a length octet
/// lies between 64 and 191 or the name would take more than 255 octets, and
/// with `CompressionLoop` where an offset would be read a second time.
pub open spec fn decode_name(buf: Seq<u8>, start: int) -> Result<(Seq<Seq<u8>>, int), DnsError> {
    walk(buf, start, Set::empty(), 0, None)
}

/// Reading one more offset keeps the offsets read inside the buffer, and
/// there is room for it.
pub proof fn lemma_visit(buf: Seq<u8>, visited: Set<int>, pos: int)
    requires
        visited_ok(buf, visited),
        0 <= pos < buf.len(),
        !visited.contains(pos),
    ensures
        visited_ok(buf, visited.insert(pos)),
        visited.insert(pos).len() == visited.len() + 1,
        visited.len() < buf.len(),
{
    lemma_int_range(0, buf.len() as int);
    lemma_len_subset(visited.insert(pos), set_int_range(0, buf.len() as int));
}

/// What a decoder returns, over the labels' octets.
pub open spec fn name_result_view(r: Result<(DnsName, usize), DnsError>) -> Result<
    (Seq<Seq<u8>>, int),
    DnsError,
> {
    match r {
        Ok((name, end)) => Ok((name@, end as int)),
        Err(e) => Err(e),
    }
}

/// The labels take as many octets as `labels_len` says.
pub proof fn lemma_encode_labels_len(labels: Seq<Seq<u8>>)
    ensures
        encode_labels(labels).len() == labels_len(labels),
        encode_name(labels).len() == labels_len(labels) + 1,
    decreases labels.len(),
{
    if labels.len() > 0 {
        lemma_encode_labels_len(labels.drop_first());
    }
}

/// Labels written one after the other are the labels of the joined sequence.
pub proof fn lemma_encode_labels_concat(a: Seq<Seq<u8>>, b: Seq<Seq<u8>>)
    ensures
        encode_labels(a + b) == encode_labels(a) + encode_labels(b),
        labels_len(a + b) == labels_len(a) + labels_len(b),
    decreases a.len(),
{
    if a.len() == 0 {
        assert(a + b =~= b);
        assert(encode_labels(a) + encode_labels(b) =~= encode_labels(b));
    } else {
        lemma_encode_labels_concat(a.drop_first(), b);
        assert((a + b).drop_first() =~= a.drop_first() + b);
        assert((a + b)[0] == a[0]);
        assert(encode_labels(a + b) =~= encode_labels(a) + encode_labels(b));
    }
}

/// One more label at the end adds its length octet and its octets.
pub proof fn lemma_encode_labels_push(a: Seq<Seq<u8>>, label: Seq<u8>)
    ensures
        encode_labels(a.push(label)) == encode_labels(a) + seq![label.len() as u8] + label,
        labels_len(a.push(label)) == labels_len(a) + 1 + label.len(),
{
    let one = seq![label];
    lemma_encode_labels_concat(a, one);
    assert(a.push(label) =~= a + one);
    assert(one[0] == label);
    assert(one.drop_first() =~= Seq::<Seq<u8>>::empty());
    assert(encode_labels(one.drop_first()) =~= Seq::<u8>::empty());
    assert(labels_len(one.drop_first()) == 0);
    assert(encode_labels(one) =~= seq![label.len() as u8] + label);
    assert(encode_labels(a) + (seq![label.len() as u8] + label) =~= encode_labels(a)
        + seq![label.len() as u8] + label);
}

/// One more offset in the list is one more offset read.
proof fn lemma_listed(trail: Seq<usize>, visited: Set<int>, pos: usize)
    requires
        forall|x: usize| trail.contains(x) <==> visited.contains(x as int),
    ensures
        forall|x: usize| trail.push(pos).contains(x) <==> visited.insert(pos as int).contains(x as int),
{
    assert forall|x: usize| trail.push(pos).contains(x) <==> visited.insert(pos as int).contains(
        x as int,
    ) by {
        if trail.push(pos).contains(x) {
            let j = choose|j: int| 0 <= j < trail.push(pos).len() && trail.push(pos)[j] == x;
            if j < trail.len() {
                assert(trail[j] == x);
                assert(trail.contains(x));
            }
        }
        if visited.insert(pos as int).contains(x as int) {
            if x == pos {
                assert(trail.push(pos)[trail.len() as int] == x);
            } else {
                assert(trail.contains(x));
                let j = choose|j: int| 0 <= j < trail.len() && trail[j] == x;
                assert(trail.push(pos)[j] == x);
            }
        }
    }
}

/// A mark for each offset of a buffer of `n` octets, set for the listed offsets.
fn marked(n: usize, trail: &Vec<usize>) -> (seen: Vec<bool>)
    requires
        forall|j: int| 0 <= j < trail.len() ==> trail@[j] < n,
    ensures
        seen.len() == n,
        forall|k: int| 0 <= k < n ==> seen@[k] == trail@.contains(k as usize),
{
    let mut seen: Vec<bool> = Vec::new();
    while seen.len() < n
        invariant
            seen.len() <= n,
            forall|k: int| 0 <= k < seen.len() ==> !seen@[k],
        decreases n - seen.len(),
    {
        seen.push(false);
    }
    let mut m: usize = 0;
    while m < trail.len()
        invariant
            m <= trail.len(),
            seen.len() == n,
            forall|j: int| 0 <= j < trail.len() ==> trail@[j] < n,
            forall|k: int| 0 <= k < n ==> seen@[k] == trail@.subrange(0, m as int).contains(k as usize),
        decreases trail.len() - m,
    {
        let at = trail[m];
        let ghost before = trail@.subrange(0, m as int);
        let ghost after = trail@.subrange(0, m + 1);
        seen.set(at, true);
        proof {
            assert(after =~= before.push(at));
            assert forall|k: int| 0 <= k < n implies seen@[k] == after.contains(k as usize) by {
                if after.contains(k as usize) {
                    let j = choose|j: int| 0 <= j < after.len() && after[j] == k as usize;
                    if j < m {
                        assert(before[j] == k as usize);
                    }
                } else {
                    if before.contains(k as usize) {
                        let j = choose|j: int| 0 <= j < before.len() && before[j] == k as usize;
                        assert(after[j] == k as usize);
                    }
                    assert(after[m as int] == at);
                }
            }
        }
        m = m + 1;
    }
    assert(trail@.subrange(0, m as int) =~= trail@);
    seen
}

impl Clone for DnsName {
    /// A copy of the name.
    fn clone(&self) -> (r: DnsName)
        ensures
            r@ == self@,
    {
        let mut labels: Vec<Vec<u8>> = Vec::new();
        let mut i: usize = 0;
        while i < self.labels.len()
            invariant
                i <= self.labels.len(),
                labels@.len() == i,
                forall|k: int| 0 <= k < i ==> (#[trigger] labels@[k])@ == self.labels@[k]@,
            decreases self.labels.len() - i,
        {
            let label = copy_range(self.labels[i].as_slice(), 0, self.labels[i].len());
            assert(label@ =~= self.labels@[i as int]@);
            labels.push(label);
            i = i + 1;
        }
        let r = DnsName { labels };
        assert(r@ =~= self@);
        r
    }
}

impl DnsName {
    /// The root name, without labels.
    pub fn root() -> (r: DnsName)
        ensures
            r@ == Seq::<Seq<u8>>::empty(),
    {
        let r = DnsName { labels: Vec::new() };
        assert(r@ =~= Seq::<Seq<u8>>::empty());
        r
    }

    /// A name with the given labels, the leftmost first.
    pub fn new(labels: Vec<Vec<u8>>) -> (r: DnsName)
        ensures
            r.labels == labels,
    {
        DnsName { labels }
    }

    /// Whether the two names have the same labels, octet for octet.
    pub fn same_as(&self, other: &DnsName) -> (r: bool)
        ensures
            r == (self@ == other@),
    {
        if self.labels.len() != other.labels.len() {
            assert(self@.len() != other@.len());
            return false;
        }
        let mut i: usize = 0;
        while i < self.labels.len()
            invariant
                i <= self.labels.len(),
                self.labels.len() == other.labels.len(),
                forall|k: int| 0 <= k < i ==> self.labels@[k]@ == other.labels@[k]@,
            decreases self.labels.len() - i,
        {
            if !same_bytes(self.labels[i].as_slice(), other.labels[i].as_slice()) {
                assert(self@[i as int] != other@[i as int]);
                return false;
            }
            i = i + 1;
        }
        assert(self@ =~= other@);
        true
    }

    /// Whether the name can be written: every label has 1 to 63 octets, and
    /// the encoded name at most 255.
    pub fn is_valid(&self) -> (ok: bool)
        ensures
            ok == name_ok(self@),
    {
        let mut total: usize = 1;
        let mut i: usize = 0;
        while i < self.labels.len()
            invariant
                i <= self.labels.len(),
                total == labels_len(self@.subrange(0, i as int)) + 1,
                total <= 255,
                forall|k: int| 0 <= k < i ==> label_ok(#[trigger] self@[k]),
            decreases self.labels.len() - i,
        {
            let len = self.labels[i].len();
            proof {
                let done = self@.subrange(0, i as int);
                lemma_encode_labels_push(done, self@[i as int]);
                assert(self@.subrange(0, i + 1) =~= done.push(self@[i as int]));
                assert(self@ =~= self@.subrange(0, i + 1) + self@.subrange(
                    i + 1,
                    self@.len() as int,
                ));
                lemma_encode_labels_concat(
                    self@.subrange(0, i + 1),
                    self@.subrange(i + 1, self@.len() as int),
                );
            }
            if len == 0 || len > MAX_LABEL_LEN {
                assert(!label_ok(self@[i as int]));
                return false;
            }
            if total + 1 + len > MAX_NAME_LEN {
                return false;
            }
            total = total + 1 + len;
            i = i + 1;
        }
        assert(self@.subrange(0, i as int) =~= self@);
        true
    }

    /// Appends the encoded name: each label behind its length octet, then a
    /// zero octet.
    pub fn write_to(&self, out: &mut Vec<u8>)
        requires
            name_ok(self@),
        ensures
            final(out)@ == old(out)@ + encode_name(self@),
    {
        let mut i: usize = 0;
        while i < self.labels.len()
            invariant
                i <= self.labels.len(),
                name_ok(self@),
                out@ == old(out)@ + encode_labels(self@.subrange(0, i as int)),
            decreases self.labels.len() - i,
        {
            let ghost before = out@;
            let ghost done = self@.subrange(0, i as int);
            assert(label_ok(self@[i as int]));
            out.push(self.labels[i].len() as u8);
            put_bytes(out, self.labels[i].as_slice());
            proof {
                lemma_encode_labels_push(done, self@[i as int]);
                assert(self@.subrange(0, i + 1) =~= done.push(self@[i as int]));
                assert(out@ =~= old(out)@ + encode_labels(self@.subrange(0, i + 1)));
            }
            i = i + 1;
        }
        out.push(0u8);
        assert(self@.subrange(0, i as int) =~= self@);
        assert(out@ =~= old(out)@ + encode_name(self@));
    }

    /// The name on the wire, uncompressed. Fails with `InvalidLabel` where a
    /// label is empty or longer than 63 octets, or the encoded name longer
    /// than 255.
    pub fn encode(&self) -> (r: Result<Vec<u8>, DnsError>)
        ensures
            name_ok(self@) ==> r is Ok && r->Ok_0@ == encode_name(self@),
            !name_ok(self@) ==> r == Err::<Vec<u8>, DnsError>(DnsError::InvalidLabel),
    {
        if !self.is_valid() {
            return Err(DnsError::InvalidLabel);
        }
        let mut out: Vec<u8> = Vec::new();
        self.write_to(&mut out);
        assert(out@ =~= encode_name(self@));
        Ok(out)
    }

    /// Reads the name that starts at `start`, following compression pointers,
    /// and returns it with the offset behind it in the part of the buffer
    /// that was read in sequence.
    pub fn decode(buf: &[u8], start: usize) -> (r: Result<(DnsName, usize), DnsError>)
        ensures
            name_result_view(r) == decode_name(buf@, start as int),
    {
        let n = buf.len();
        // The offsets read are listed in `trail` until the first pointer is
        // followed, and marked in `seen` from then on.
        let mut trail: Vec<usize> = Vec::new();
        let mut seen: Vec<bool> = Vec::new();
        let ghost mut visited: Set<int> = Set::empty();
        let mut labels: Vec<Vec<u8>> = Vec::new();
        let mut pos: usize = start;
        let mut used: usize = 0;
        let mut resume: Option<usize> = None;
        assert(prepend(labels_view(labels@), decode_name(buf@, start as int)) == decode_name(
            buf@,
            start as int,
        )) by {
            match decode_name(buf@, start as int) {
                Ok((rest, end)) => {
                    assert(labels_view(labels@) + rest =~= rest);
                },
                Err(e) => {},
            }
        }
        loop
            invariant
                n == buf.len(),
                visited_ok(buf@, visited),
                used <= 255,
                resume is None ==> {
                    &&& forall|o: int| visited.contains(o) ==> o < pos
                    &&& forall|j: int| 0 <= j < trail.len() ==> trail@[j] < n
                    &&& forall|x: usize| trail@.contains(x) <==> visited.contains(x as int)
                },
                resume is Some ==> {
                    &&& seen.len() == n
                    &&& forall|k: int| 0 <= k < n ==> seen@[k] == visited.contains(k)
                },
                decode_name(buf@, start as int) == prepend(
                    labels_view(labels@),
                    walk(
                        buf@,
                        pos as int,
                        visited,
                        used as int,
                        match resume {
                            Some(r) => Some(r as int),
                            None => None,
                        },
                    ),
                ),
            decreases n - visited.len(),
        {
            if pos >= n {
                return Err(DnsError::TruncatedMessage);
            }
            if resume.is_some() && seen[pos] {
                return Err(DnsError::CompressionLoop);
            }
            let b = buf[pos];
            if b == 0 {
                let end = match resume {
                    Some(r) => r,
                    None => pos + 1,
                };
                let name = DnsName { labels };
                assert(name@ + Seq::<Seq<u8>>::empty() =~= name@);
                return Ok((name, end));
            }
            proof {
                lemma_visit(buf@, visited, pos as int);
            }
            if b < 64 {
                let len = b as usize;
                if len > n - pos - 1 {
                    return Err(DnsError::TruncatedMessage);
                }
                if used + len + 2 > MAX_NAME_LEN {
                    return Err(DnsError::InvalidLabel);
                }
                let label = copy_range(buf, pos + 1, pos + 1 + len);
                proof {
                    let front = labels_view(labels@);
                    let next = walk(
                        buf@,
                        pos + 1 + len,
                        visited.insert(pos as int),
                        used + 1 + len,
                        match resume {
                            Some(r) => Some(r as int),
                            None => None,
                        },
                    );
                    assert(labels_view(labels@.push(label)) =~= front.push(label@));
                    match next {
                        Ok((rest, end)) => {
                            assert(front + (seq![label@] + rest) =~= front.push(label@) + rest);
                        },
                        Err(e) => {},
                    }
                }
                labels.push(label);
                used = used + 1 + len;
                if resume.is_some() {
                    seen.set(pos, true);
                } else {
                    proof {
                        lemma_listed(trail@, visited, pos);
                    }
                    trail.push(pos);
                }
                proof {
                    visited = visited.insert(pos as int);
                }
                pos = pos + 1 + len;
            } else if b < 192 {
                return Err(DnsError::InvalidLabel);
            } else {
                if n - pos < 2 {
                    return Err(DnsError::TruncatedMessage);
                }
                let target = (b as usize - 192) * 256 + buf[pos + 1] as usize;
                if resume.is_none() {
                    seen = marked(n, &trail);
                    resume = Some(pos + 2);
                }
                seen.set(pos, true);
                proof {
                    visited = visited.insert(pos as int);
                }
                pos = target;
            }
        }
    }
}

} // verus!
