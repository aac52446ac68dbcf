//! Decoders for C++ ABI structures read out of the host process.
//!
//! The host's scripting interface hands over two foreign types: a
//! short-string-optimized `std::string` and a three-pointer `std::vector`.
//! Neither is owned by this system, so a string is decoded by value the
//! moment it is seen, and the vector is modelled by its three addresses
//! plus the element size; whoever walks the host's memory resolves each
//! element address produced here.

use vstd::prelude::*;

verus! {

/// The text that lossy UTF-8 decoding assigns to a byte sequence. It is a
/// function of the bytes alone; on valid UTF-8 it agrees with
/// `vstd::utf8::decode_utf8`, and on invalid sequences it stands for the
/// replacement-character decoding.
pub uninterp spec fn lossy_text_of(bytes: Seq<u8>) -> Seq<char>;

/// Relies on `String::from_utf8_lossy`: decodes the bytes as UTF-8,
/// replacing invalid sequences, and its result depends on the bytes alone.
/// On valid UTF-8 the conversion is exact.
#[verifier::external_body]
pub(crate) fn lossy_string(bytes: &Vec<u8>) -> (r: String)
    ensures
        r@ == lossy_text_of(bytes@),
        vstd::utf8::valid_utf8(bytes@) ==> r@ == vstd::utf8::decode_utf8(bytes@),
{
    String::from_utf8_lossy(bytes).into_owned()
}

/// The bytes strictly before the first null byte, or all of them when no
/// null occurs.
pub open spec fn bytes_before_nul(bytes: Seq<u8>) -> Seq<u8>
    decreases bytes.len(),
{
    if bytes.len() == 0 {
        Seq::empty()
    } else if bytes[0] == 0 {
        Seq::empty()
    } else {
        seq![bytes[0]] + bytes_before_nul(bytes.drop_first())
    }
}

/// Whether any null byte occurs.
pub open spec fn contains_nul(bytes: Seq<u8>) -> bool {
    exists|i: int| 0 <= i < bytes.len() && bytes[i] == 0
}

/// When the first `i` bytes are non-null and position `i` (if any) holds a
/// null, the before-null prefix is exactly the first `i` bytes.
pub proof fn lemma_bytes_before_nul_at(b: Seq<u8>, i: int)
    requires
        0 <= i <= b.len(),
        forall|j: int| 0 <= j < i ==> b[j] != 0,
        i < b.len() ==> b[i] == 0,
    ensures
        bytes_before_nul(b) == b.subrange(0, i),
    decreases b.len(),
{
    if i == 0 {
        assert(b.subrange(0, 0) =~= Seq::<u8>::empty());
    } else {
        let t = b.drop_first();
        assert forall|j: int| 0 <= j < i - 1 implies t[j] != 0 by {
            assert(t[j] == b[j + 1]);
        }
        lemma_bytes_before_nul_at(t, i - 1);
        assert(b.subrange(0, i) =~= seq![b[0]] + t.subrange(0, i - 1));
    }
}

/// The before-null prefix is strictly shorter exactly when a null occurs.
pub proof fn lemma_contains_nul_iff(b: Seq<u8>)
    ensures
        contains_nul(b) <==> bytes_before_nul(b).len() < b.len(),
        !contains_nul(b) ==> bytes_before_nul(b) == b,
    decreases b.len(),
{
    if b.len() > 0 && b[0] != 0 {
        let t = b.drop_first();
        lemma_contains_nul_iff(t);
        if contains_nul(b) {
            let i = choose|i: int| 0 <= i < b.len() && b[i] == 0;
            assert(t[i - 1] == 0);
        }
        if contains_nul(t) {
            let i = choose|i: int| 0 <= i < t.len() && t[i] == 0;
            assert(b[i + 1] == 0);
        }
        if !contains_nul(b) {
            assert(bytes_before_nul(b) =~= b);
        }
    }
}

/// Copy of the bytes up to (excluding) the first null.
pub fn prefix_before_nul(bytes: &Vec<u8>) -> (r: Vec<u8>)
    ensures
        r@ == bytes_before_nul(bytes@),
{
    let mut i: usize = 0;
    let mut r: Vec<u8> = Vec::new();
    while i < bytes.len()
        invariant
            i <= bytes@.len(),
            forall|j: int| 0 <= j < i ==> bytes@[j] != 0,
            r@ == bytes@.subrange(0, i as int),
        decreases bytes@.len() - i,
    {
        if bytes[i] == 0 {
            proof {
                lemma_bytes_before_nul_at(bytes@, i as int);
            }
            return r;
        }
        r.push(bytes[i]);
        proof {
            assert(r@ =~= bytes@.subrange(0, i + 1));
        }
        i = i + 1;
    }
    proof {
        lemma_bytes_before_nul_at(bytes@, i as int);
        assert(bytes@.subrange(0, i as int) =~= bytes@);
    }
    r
}

/// Overlay of a three-pointer `std::vector` owned by the host: `first` and
/// `last` delimit the live elements, `end` the allocated storage. Only the
/// addresses are held here; `elem_size` records the foreign element size
/// that pointer arithmetic advances by.
pub struct StdVector {
    pub first: u32,
    pub last: u32,
    pub end: u32,
    pub elem_size: u32,
}

impl StdVector {
    /// A meaningful overlay: ordered addresses, a positive element size,
    /// and whole elements between the pointers.
    pub open spec fn wf(&self) -> bool {
        &&& self.first <= self.last <= self.end
        &&& self.elem_size > 0
        &&& (self.last - self.first) % (self.elem_size as int) == 0
        &&& (self.end - self.first) % (self.elem_size as int) == 0
    }

    /// Number of live elements.
    pub open spec fn spec_len(&self) -> int {
        (self.last - self.first) / (self.elem_size as int)
    }

    pub fn len(&self) -> (n: usize)
        requires
            self.first <= self.last,
            self.elem_size > 0,
        ensures
            n == self.spec_len(),
    {
        (((self.last - self.first) / self.elem_size) as usize)
    }

    pub fn capacity(&self) -> (n: usize)
        requires
            self.first <= self.end,
            self.elem_size > 0,
        ensures
            n == (self.end - self.first) / (self.elem_size as int),
    {
        (((self.end - self.first) / self.elem_size) as usize)
    }

    /// Start walking the live range.
    pub fn iter(&self) -> (it: StdVectorIterator)
        requires
            self.wf(),
        ensures
            it.wf(),
            it.current == self.first,
            it.end == self.last,
            it.elem_size == self.elem_size,
    {
        StdVectorIterator { current: self.first, end: self.last, elem_size: self.elem_size }
    }

    /// The addresses of all live elements, in order.
    pub fn element_addresses(&self) -> (r: Vec<u32>)
        requires
            self.wf(),
        ensures
            r@.len() == self.spec_len(),
            forall|i: int|
                0 <= i < r@.len() ==> r@[i] == self.first + i * self.elem_size,
    {
        let mut it = self.iter();
        let mut r: Vec<u32> = Vec::new();
        proof {
            assert((it.current - self.first) % (self.elem_size as int) == 0) by (nonlinear_arith)
                requires
                    it.current == self.first,
                    self.elem_size > 0,
            {}
            assert(r@.len() == (it.current - self.first) / (self.elem_size as int)) by (
            nonlinear_arith)
                requires
                    it.current == self.first,
                    self.elem_size > 0,
                    r@.len() == 0,
            {}
        }
        loop
            invariant
                it.wf(),
                it.end == self.last,
                it.elem_size == self.elem_size,
                self.wf(),
                self.first <= it.current,
                (it.current - self.first) % (self.elem_size as int) == 0,
                r@.len() == (it.current - self.first) / (self.elem_size as int),
                forall|i: int|
                    0 <= i < r@.len() ==> r@[i] == self.first + i * self.elem_size,
            decreases it.end - it.current,
        {
            let ghost done = r@.len() as int;
            match it.next() {
                Some(addr) => {
                    r.push(addr);
                    proof {
                        assert((addr - self.first) / (self.elem_size as int) == done) by (
                        nonlinear_arith)
                            requires
                                self.elem_size > 0,
                                addr >= self.first,
                                (addr - self.first) % (self.elem_size as int) == 0,
                                done == (addr - self.first) / (self.elem_size as int),
                        {}
                        assert(addr == self.first + done * self.elem_size) by (nonlinear_arith)
                            requires
                                self.elem_size > 0,
                                addr >= self.first,
                                (addr - self.first) % (self.elem_size as int) == 0,
                                done == (addr - self.first) / (self.elem_size as int),
                        {}
                        assert((it.current - self.first) % (self.elem_size as int) == 0 && r@.len()
                            == (it.current - self.first) / (self.elem_size as int)) by (
                        nonlinear_arith)
                            requires
                                self.elem_size > 0,
                                it.current == addr + self.elem_size,
                                addr >= self.first,
                                (addr - self.first) % (self.elem_size as int) == 0,
                                r@.len() == done + 1,
                                done == (addr - self.first) / (self.elem_size as int),
                        {}
                    }
                },
                None => {
                    proof {
                        assert(r@.len() == self.spec_len());
                    }
                    return r;
                },
            }
        }
    }
}

/// Walks element addresses of a live `StdVector` range without copying.
pub struct StdVectorIterator {
    pub current: u32,
    pub end: u32,
    pub elem_size: u32,
}

impl StdVectorIterator {
    pub open spec fn wf(&self) -> bool {
        &&& self.current <= self.end
        &&& self.elem_size > 0
        &&& (self.end - self.current) % (self.elem_size as int) == 0
    }

    /// The address of the next element, or `None` once the range is spent.
    pub fn next(&mut self) -> (r: Option<u32>)
        requires
            old(self).wf(),
        ensures
            final(self).wf(),
            final(self).end == old(self).end,
            final(self).elem_size == old(self).elem_size,
            old(self).current == old(self).end ==> r is None && *final(self) == *old(self),
            old(self).current < old(self).end ==> {
                &&& r == Some(old(self).current)
                &&& final(self).current == old(self).current + old(self).elem_size
            },
    {
        if self.current != self.end {
            let value = self.current;
            proof {
                assert(self.current + self.elem_size <= self.end) by (nonlinear_arith)
                    requires
                        self.current < self.end,
                        self.elem_size > 0,
                        (self.end - self.current) % (self.elem_size as int) == 0,
                {}
                assert(((self.end - (self.current + self.elem_size)) % (self.elem_size as int))
                    == 0) by (nonlinear_arith)
                    requires
                        (self.end - self.current) % (self.elem_size as int) == 0,
                        self.elem_size > 0,
                {}
            }
            self.current = self.current + self.elem_size;
            Some(value)
        } else {
            None
        }
    }
}

/// Storage of a short-string-optimized C++ string: the 16-byte in-place
/// buffer, or the bytes its out-of-line heap pointer leads to (read up to
/// the terminating null by whoever follows the pointer).
pub enum StdStringData {
    Inline { buf: Vec<u8> },
    Heap { bytes: Vec<u8> },
}

/// Overlay of a short-string-optimized C++ string, decoded by value
/// because the backing memory's lifetime belongs to the host.
pub struct StdString {
    pub data: StdStringData,
    pub size: u32,
    pub capacity: u32,
}

/// The inline-storage threshold of the short-string optimization.
pub const SSO_THRESHOLD: u32 = 16;

impl StdString {
    /// The stored raw bytes, whichever storage mode holds them.
    pub open spec fn stored_bytes(&self) -> Seq<u8> {
        match self.data {
            StdStringData::Inline { buf } => buf@,
            StdStringData::Heap { bytes } => bytes@,
        }
    }

    /// The string's size field agrees with the storage mode, and an inline
    /// buffer is the full 16 bytes with its terminating null in place.
    pub open spec fn wf(&self) -> bool {
        match self.data {
            StdStringData::Inline { buf } => self.size < SSO_THRESHOLD && buf@.len() == 16
                && buf@[self.size as int] == 0,
            StdStringData::Heap { bytes } => self.size >= SSO_THRESHOLD,
        }
    }

    /// The text this foreign string denotes: its bytes up to the first
    /// null, decoded lossily.
    pub open spec fn text(&self) -> Seq<char> {
        lossy_text_of(bytes_before_nul(self.stored_bytes()))
    }

    /// Decode into an owned string: stop at the first null byte and
    /// convert lossily, never failing on foreign, unvalidated memory.
    pub fn to_string(&self) -> (r: String)
        ensures
            r@ == self.text(),
    {
        let bytes = match &self.data {
            StdStringData::Inline { buf } => prefix_before_nul(buf),
            StdStringData::Heap { bytes } => prefix_before_nul(bytes),
        };
        lossy_string(&bytes)
    }
}

/// Decoding a string is indifferent to its storage mode: the same content
/// held inline or out-of-line denotes the same text.
pub proof fn lemma_storage_mode_equivalence(a: StdString, b: StdString)
    requires
        bytes_before_nul(a.stored_bytes()) == bytes_before_nul(b.stored_bytes()),
    ensures
        a.text() == b.text(),
{
}

} // verus!