//! The message pack: a header of three bytes and up to nine 25-byte messages.

use vstd::prelude::*;

use crate::{MAX_PACK_MESSAGES, MESSAGE_SIZE};

verus! {

#[derive(Clone, Copy, Debug, PartialEq, Eq)]
#[non_exhaustive]
pub enum PackError {
    TooShort,
    NotAPack,
    BadMessageSize(u8),
    TooManyMessages(u8),
    Truncated,
    Empty,
    InvalidContent,
}

/// Most messages of each type 0–5 that one pack may carry: two Basic IDs,
/// sixteen authentication pages, one of each other type.
pub open spec fn max_per_type(t: u8) -> int {
    if t == 0 {
        2
    } else if t == 2 {
        16
    } else {
        1
    }
}

/// The `i`-th message of a pack.
pub open spec fn pack_message(p: Seq<u8>, i: int) -> Seq<u8> {
    p.subrange(3 + 25 * i, 28 + 25 * i)
}

/// The messages that the header of `p` announces.
pub open spec fn pack_messages(p: Seq<u8>) -> Seq<Seq<u8>> {
    Seq::new(p[2] as nat, |i: int| pack_message(p, i))
}

/// How many of the messages `ms` have type `t`.
pub open spec fn type_count(ms: Seq<Seq<u8>>, t: u8) -> nat
    decreases ms.len(),
{
    if ms.len() == 0 {
        0
    } else {
        type_count(ms.drop_last(), t) + if ms.last()[0] / 16 == t {
            1nat
        } else {
            0nat
        }
    }
}

/// Every message has a type 0–5, and no type occurs more often than its
/// limit.
pub open spec fn content_ok(ms: Seq<Seq<u8>>) -> bool {
    &&& forall|i: int| 0 <= i < ms.len() ==> #[trigger] ms[i][0] / 16 < 6
    &&& forall|t: u8| t < 6 ==> type_count(ms, t) <= max_per_type(t)
}

/// What parsing `p` gives: the first failed check in the order the header
/// is read, or the messages it carries.
pub open spec fn spec_parse_pack(p: Seq<u8>) -> Result<Seq<Seq<u8>>, PackError> {
    if p.len() < 3 {
        Err(PackError::TooShort)
    } else if p[0] / 16 != 15 {
        Err(PackError::NotAPack)
    } else if p[1] != 25 {
        Err(PackError::BadMessageSize(p[1]))
    } else if p[2] > 9 {
        Err(PackError::TooManyMessages(p[2]))
    } else if p[2] == 0 {
        Err(PackError::Empty)
    } else if p.len() < 3 + 25 * p[2] {
        Err(PackError::Truncated)
    } else if !content_ok(pack_messages(p)) {
        Err(PackError::InvalidContent)
    } else {
        Ok(pack_messages(p))
    }
}

/// The messages of a parsed pack, handed out in order.
pub struct PackIter<'a> {
    msgs: &'a [u8],
    count: usize,
    next: usize,
}

impl<'a> PackIter<'a> {
    #[verifier::type_invariant]
    spec fn inv(self) -> bool {
        &&& self.msgs@.len() == 25 * self.count
        &&& self.next <= self.count
        &&& self.count <= MAX_PACK_MESSAGES
    }

    /// The messages not yet handed out.
    pub closed spec fn remaining(self) -> Seq<Seq<u8>> {
        Seq::new(
            (self.count - self.next) as nat,
            |i: int| self.msgs@.subrange(25 * (self.next + i), 25 * (self.next + i) + 25),
        )
    }

    /// Number of messages not yet handed out.
    pub fn len(&self) -> (n: usize)
        ensures
            n == self.remaining().len(),
            n <= MAX_PACK_MESSAGES,
    {
        proof {
            use_type_invariant(self);
        }
        self.count - self.next
    }

    /// Hands out the next message, or `None` when all have been.
    pub fn next(&mut self) -> (r: Option<[u8; MESSAGE_SIZE]>)
        ensures
            old(self).remaining().len() == 0 ==> r is None && final(self).remaining() == old(
                self,
            ).remaining(),
            old(self).remaining().len() > 0 ==> (r matches Some(m) && m@ == old(self).remaining()[0]
                && final(self).remaining() == old(self).remaining().drop_first()),
    {
        proof {
            use_type_invariant(&*self);
        }
        if self.next >= self.count {
            return None;
        }
        let total = self.msgs.len();
        assert(25 * self.next < total);
        let base = 25 * self.next;
        let mut m = [0u8; 25];
        let mut k: usize = 0;
        while k < 25
            invariant
                base == 25 * self.next,
                self.next < self.count,
                base + 25 <= total,
                total == self.msgs@.len(),
                self.msgs@.len() == 25 * self.count,
                k <= 25,
                forall|j: int| 0 <= j < k ==> m@[j] == self.msgs@[base + j],
            decreases 25 - k,
        {
            m[k] = self.msgs[base + k];
            k = k + 1;
        }
        let ghost before = self.remaining();
        assert(m@ =~= before[0]);
        self.next = self.next + 1;
        assert(self.remaining() =~= before.drop_first());
        Some(m)
    }
}

proof fn lemma_type_count_prefix(ms: Seq<Seq<u8>>, a: int, t: u8)
    requires
        0 <= a <= ms.len(),
    ensures
        type_count(ms.take(a), t) <= type_count(ms, t),
    decreases ms.len() - a,
{
    if a < ms.len() {
        lemma_type_count_prefix(ms, a + 1, t);
        assert(ms.take(a + 1).drop_last() =~= ms.take(a));
    } else {
        assert(ms.take(a) =~= ms);
    }
}

/// Checks the header and the per-type limits of a message pack.
pub fn parse_pack(pack: &[u8]) -> (r: Result<PackIter<'_>, PackError>)
    ensures
        match r {
            Ok(it) => spec_parse_pack(pack@) == Ok::<Seq<Seq<u8>>, PackError>(it.remaining()),
            Err(e) => spec_parse_pack(pack@) == Err::<Seq<Seq<u8>>, PackError>(e),
        },
{
    if pack.len() < 3 {
        return Err(PackError::TooShort);
    }
    let header = pack[0];
    let size = pack[1];
    let n = pack[2];
    if header / 16 != 0xF {
        return Err(PackError::NotAPack);
    }
    if size as usize != MESSAGE_SIZE {
        return Err(PackError::BadMessageSize(size));
    }
    if n as usize > MAX_PACK_MESSAGES {
        return Err(PackError::TooManyMessages(n));
    }
    if n == 0 {
        return Err(PackError::Empty);
    }
    let count = n as usize;
    if pack.len() - 3 < 25 * count {
        return Err(PackError::Truncated);
    }
    let msgs = vstd::slice::slice_subrange(pack, 3, 3 + 25 * count);
    let mut counts = [0u8; 6];
    let max_per: [u8; 6] = [2, 1, 16, 1, 1, 1];
    let ghost ms = pack_messages(pack@);
    let mut i: usize = 0;
    while i < count
        invariant
            count == pack@[2],
            1 <= count <= 9,
            pack@[0] / 16 == 15,
            pack@[1] == 25,
            pack@.len() >= 3 + 25 * count,
            msgs@ == pack@.subrange(3, 3 + 25 * count),
            i <= count,
            forall|t: u8| #![auto] t < 6 ==> max_per@[t as int] == max_per_type(t),
            ms == pack_messages(pack@),
            forall|t: u8| #![auto] t < 6 ==> counts@[t as int] == type_count(ms.take(i as int), t),
            forall|t: u8| #![auto] t < 6 ==> counts@[t as int] <= max_per_type(t),
            forall|j: int| 0 <= j < i ==> #[trigger] ms[j][0] / 16 < 6,
        decreases count - i,
    {
        let t = msgs[25 * i] / 16;
        assert(ms[i as int][0] == pack@[3 + 25 * i]);
        assert(t == ms[i as int][0] / 16);
        assert(ms.take(i + 1).drop_last() =~= ms.take(i as int));
        if t >= 6 {
            return Err(PackError::InvalidContent);
        }
        assert(counts@[t as int] <= max_per_type(t));
        let c = counts[t as usize] + 1;
        counts[t as usize] = c;
        assert forall|u: u8| #![auto] u < 6 implies counts@[u as int] == type_count(
            ms.take(i + 1),
            u,
        ) by {}
        if c > max_per[t as usize] {
            proof {
                lemma_type_count_prefix(ms, i + 1, t);
            }
            return Err(PackError::InvalidContent);
        }
        i = i + 1;
    }
    let it = PackIter { msgs, count, next: 0 };
    assert forall|j: int| 0 <= j < count implies msgs@.subrange(25 * j, 25 * j + 25)
        == pack_message(pack@, j) by {
        assert(msgs@.subrange(25 * j, 25 * j + 25) =~= pack_message(pack@, j));
    }
    assert(ms.take(count as int) =~= ms);
    assert(it.remaining() =~= pack_messages(pack@));
    Ok(it)
}

/// The per-type limits of a pack's content: a pack with a good header and
/// messages of types 0–5 parses when it has at most two Basic IDs, at most
/// sixteen Auth pages and at most one message of each other type, and is
/// refused as `InvalidContent` when any of those is exceeded.
pub proof fn law_pack_type_limits(p: Seq<u8>)
    requires
        p.len() >= 3,
        p[0] / 16 == 15,
        p[1] == 25,
        1 <= p[2] <= 9,
        p.len() >= 3 + 25 * p[2],
        forall|i: int| 0 <= i < p[2] ==> #[trigger] pack_messages(p)[i][0] / 16 < 6,
    ensures
        ({
            let ms = pack_messages(p);
            let within = type_count(ms, 0) <= 2 && type_count(ms, 2) <= 16 && type_count(ms, 1) <= 1
                && type_count(ms, 3) <= 1 && type_count(ms, 4) <= 1 && type_count(ms, 5) <= 1;
            &&& within ==> spec_parse_pack(p) == Ok::<Seq<Seq<u8>>, PackError>(ms)
            &&& !within ==> spec_parse_pack(p) == Err::<Seq<Seq<u8>>, PackError>(
                PackError::InvalidContent,
            )
        }),
{
    let ms = pack_messages(p);
    assert forall|i: int| 0 <= i < ms.len() implies #[trigger] ms[i][0] / 16 < 6 by {}
    if type_count(ms, 0) <= 2 && type_count(ms, 2) <= 16 && type_count(ms, 1) <= 1 && type_count(
        ms,
        3,
    ) <= 1 && type_count(ms, 4) <= 1 && type_count(ms, 5) <= 1 {
        assert forall|t: u8| t < 6 implies type_count(ms, t) <= max_per_type(t) by {
            if t == 0 {
            } else if t == 1 {
            } else if t == 2 {
            } else if t == 3 {
            } else if t == 4 {
            } else {
            }
        }
        assert(content_ok(ms));
    } else {
        let t: u8 = if type_count(ms, 0) > 2 {
            0
        } else if type_count(ms, 2) > 16 {
            2
        } else if type_count(ms, 1) > 1 {
            1
        } else if type_count(ms, 3) > 1 {
            3
        } else if type_count(ms, 4) > 1 {
            4
        } else {
            5
        };
        assert(type_count(ms, t) > max_per_type(t));
        assert(!content_ok(ms));
    }
}

} // verus!
