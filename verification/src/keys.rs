//! Validator public keys and their canonical order.
//!
//! A key is handled as its canonical encoding of 96 bytes. Keys are ordered
//! as their encodings are, byte by byte from the first: this is the order in
//! which every node walks the provisioners and the ledger.

use vstd::prelude::*;

verus! {

/// The length of an encoded public key.
pub const PUBLIC_KEY_SIZE: usize = 96;

/// `a` comes before `b` in lexicographic byte order.
pub open spec fn lex_lt(a: Seq<u8>, b: Seq<u8>) -> bool {
    ||| exists|i: int| #[trigger]
        differ_at(a, b, i) && a[i] < b[i]
    ||| a.len() < b.len() && a =~= b.take(a.len() as int)
}

/// `i` is the first index at which `a` and `b` hold different bytes.
pub open spec fn differ_at(a: Seq<u8>, b: Seq<u8>, i: int) -> bool {
    &&& 0 <= i < a.len()
    &&& i < b.len()
    &&& a[i] != b[i]
    &&& forall|k: int| 0 <= k < i ==> a[k] == b[k]
}

/// No sequence comes before itself.
pub proof fn lemma_lex_lt_irreflexive(a: Seq<u8>)
    ensures
        !lex_lt(a, a),
{
}

/// Two sequences have at most one first difference.
pub proof fn lemma_differ_at_unique(a: Seq<u8>, b: Seq<u8>, i: int, j: int)
    requires
        differ_at(a, b, i),
        differ_at(a, b, j),
    ensures
        i == j,
{
}

/// The order is asymmetric.
pub proof fn lemma_lex_lt_asymmetric(a: Seq<u8>, b: Seq<u8>)
    requires
        lex_lt(a, b),
    ensures
        !lex_lt(b, a),
{
    if lex_lt(b, a) {
        if exists|i: int| #[trigger] differ_at(a, b, i) && a[i] < b[i] {
            let i = choose|i: int| #[trigger] differ_at(a, b, i) && a[i] < b[i];
            if exists|j: int| #[trigger] differ_at(b, a, j) && b[j] < a[j] {
                let j = choose|j: int| #[trigger] differ_at(b, a, j) && b[j] < a[j];
                assert(differ_at(a, b, j));
                lemma_differ_at_unique(a, b, i, j);
            } else {
                assert(b[i] == a.take(b.len() as int)[i]);
            }
        } else {
            if exists|j: int| #[trigger] differ_at(b, a, j) && b[j] < a[j] {
                let j = choose|j: int| #[trigger] differ_at(b, a, j) && b[j] < a[j];
                assert(a[j] == b.take(a.len() as int)[j]);
            }
        }
    }
}

/// The order is transitive.
pub proof fn lemma_lex_lt_transitive(a: Seq<u8>, b: Seq<u8>, c: Seq<u8>)
    requires
        lex_lt(a, b),
        lex_lt(b, c),
    ensures
        lex_lt(a, c),
{
    let ab = exists|i: int| #[trigger] differ_at(a, b, i) && a[i] < b[i];
    let bc = exists|i: int| #[trigger] differ_at(b, c, i) && b[i] < c[i];
    if ab && bc {
        let i = choose|i: int| #[trigger] differ_at(a, b, i) && a[i] < b[i];
        let j = choose|j: int| #[trigger] differ_at(b, c, j) && b[j] < c[j];
        let m = if i <= j { i } else { j };
        assert(differ_at(a, c, m));
    } else if ab && !bc {
        let i = choose|i: int| #[trigger] differ_at(a, b, i) && a[i] < b[i];
        assert(differ_at(a, c, i));
    } else if !ab && bc {
        let j = choose|j: int| #[trigger] differ_at(b, c, j) && b[j] < c[j];
        if j < a.len() {
            assert(differ_at(a, c, j));
        } else {
            assert(a =~= c.take(a.len() as int));
        }
    } else {
        assert(forall|k: int| 0 <= k < a.len() ==> a[k] == b.take(a.len() as int)[k]);
    }
}

/// Two sequences that agree on their first `i` bytes are equal or one comes
/// before the other.
proof fn lemma_lex_total_from(a: Seq<u8>, b: Seq<u8>, i: int)
    requires
        0 <= i <= a.len(),
        i <= b.len(),
        forall|k: int| 0 <= k < i ==> a[k] == b[k],
    ensures
        a == b || lex_lt(a, b) || lex_lt(b, a),
    decreases a.len() - i,
{
    if i == a.len() {
        if a.len() == b.len() {
            assert(a =~= b);
        } else {
            assert(a =~= b.take(a.len() as int));
        }
    } else if i == b.len() {
        assert(b =~= a.take(b.len() as int));
    } else if a[i] < b[i] {
        assert(differ_at(a, b, i));
    } else if b[i] < a[i] {
        assert(differ_at(b, a, i));
    } else {
        lemma_lex_total_from(a, b, i + 1);
    }
}

/// The order is total: of two different sequences one comes first.
pub proof fn lemma_lex_total(a: Seq<u8>, b: Seq<u8>)
    ensures
        a == b || lex_lt(a, b) || lex_lt(b, a),
{
    lemma_lex_total_from(a, b, 0);
}

/// Where one key stands relative to another in the canonical order.
#[derive(Clone, Copy, Debug, PartialEq, Eq)]
pub enum KeyOrder {
    Before,
    Same,
    After,
}

/// The public key of a validator, as its canonical encoding.
#[derive(Clone, Copy, Debug, PartialEq, Eq)]
pub struct PublicKey {
    bytes: [u8; 96],
}

impl View for PublicKey {
    type V = Seq<u8>;

    closed spec fn view(&self) -> Seq<u8> {
        self.bytes@
    }
}

impl PublicKey {
    /// Every key is 96 bytes long.
    pub proof fn lemma_len(&self)
        ensures
            self@.len() == PUBLIC_KEY_SIZE,
    {
    }

    /// Keys with the same encoding are the same key.
    pub proof fn lemma_view_injective(&self, other: &PublicKey)
        requires
            self@ == other@,
        ensures
            *self == *other,
    {
        assert(self.bytes =~= other.bytes);
    }

    pub fn from_bytes(bytes: [u8; 96]) -> (key: Self)
        ensures
            key@ == bytes@,
    {
        PublicKey { bytes }
    }

    /// The key that `bytes` encode, where they are 96.
    pub fn from_slice(bytes: &[u8]) -> (key: Option<Self>)
        ensures
            match key {
                Some(key) => key@ == bytes@,
                None => bytes@.len() != PUBLIC_KEY_SIZE,
            },
    {
        if bytes.len() != 96 {
            return None;
        }
        let mut copy = [0u8; 96];
        let mut i: usize = 0;
        while i < 96
            invariant
                i <= 96,
                bytes@.len() == 96,
                forall|k: int| 0 <= k < i ==> copy@[k] == bytes@[k],
            decreases 96 - i,
        {
            copy[i] = bytes[i];
            i += 1;
        }
        Some(PublicKey { bytes: copy })
    }

    pub fn to_bytes(&self) -> (bytes: [u8; 96])
        ensures
            bytes@ == self@,
    {
        self.bytes
    }

    /// Finds where `self` stands relative to `other`.
    pub fn order(&self, other: &PublicKey) -> (found: KeyOrder)
        ensures
            found == KeyOrder::Before <==> lex_lt(self@, other@),
            found == KeyOrder::Same <==> self@ == other@,
            found == KeyOrder::After <==> lex_lt(other@, self@),
    {
        let mut i: usize = 0;
        while i < 96
            invariant
                i <= 96,
                forall|k: int| 0 <= k < i ==> self.bytes@[k] == other.bytes@[k],
            decreases 96 - i,
        {
            if self.bytes[i] < other.bytes[i] {
                proof {
                    assert(differ_at(self@, other@, i as int));
                    lemma_lex_lt_asymmetric(self@, other@);
                }
                return KeyOrder::Before;
            }
            if self.bytes[i] > other.bytes[i] {
                proof {
                    assert(differ_at(other@, self@, i as int));
                    lemma_lex_lt_asymmetric(other@, self@);
                }
                return KeyOrder::After;
            }
            i += 1;
        }
        proof {
            assert(self@ =~= other@);
            lemma_lex_lt_irreflexive(self@);
        }
        KeyOrder::Same
    }

    /// Whether `self` comes before `other` in the canonical order.
    pub fn precedes(&self, other: &PublicKey) -> (before: bool)
        ensures
            before == lex_lt(self@, other@),
    {
        matches!(self.order(other), KeyOrder::Before)
    }

    /// Whether the two keys have the same encoding.
    pub fn same(&self, other: &PublicKey) -> (same: bool)
        ensures
            same == (self@ == other@),
    {
        matches!(self.order(other), KeyOrder::Same)
    }
}

} // verus!
