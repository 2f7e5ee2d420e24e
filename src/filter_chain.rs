use vstd::prelude::*;

use bitcoin::FilterHash;

use crate::error::CompactFiltersError;

verus! {

/// Double SHA-256 of a byte string.
pub uninterp spec fn sha256d(data: Seq<u8>) -> Seq<u8>;

/// Relies on bitcoin's `FilterHash::hash` (a `bitcoin_hashes` double SHA-256):
/// the digest of the bytes, which depends on them alone.
#[verifier::external_body]
pub(crate) fn double_sha256(data: &Vec<u8>) -> (r: [u8; 32])
    ensures
        r@ == sha256d(data@),
{
    let h = <FilterHash as bitcoin::hashes::Hash>::hash(data.as_slice());
    <FilterHash as bitcoin::hashes::Hash>::into_inner(h)
}

/// The filter header that follows `previous` for a filter with hash `filter_hash`.
pub open spec fn header_step(filter_hash: Seq<u8>, previous: Seq<u8>) -> Seq<u8> {
    sha256d(filter_hash + previous)
}

/// The byte strings of a list of hashes.
pub open spec fn hashes_view(hashes: Seq<[u8; 32]>) -> Seq<Seq<u8>> {
    hashes.map_values(|h: [u8; 32]| h@)
}

/// The header reached from `base` after chaining the first `n` filter hashes.
pub open spec fn chained(base: Seq<u8>, hashes: Seq<Seq<u8>>, n: int) -> Seq<u8>
    decreases n,
{
    if n <= 0 {
        base
    } else {
        header_step(hashes[n - 1], chained(base, hashes, n - 1))
    }
}

/// Whether two hashes are equal, byte by byte.
pub(crate) fn same_hash(a: &[u8; 32], b: &[u8; 32]) -> (r: bool)
    ensures
        r == (a@ == b@),
{
    let mut i: usize = 0;
    while i < 32
        invariant
            i <= 32,
            a@.len() == 32,
            b@.len() == 32,
            forall|k: int| 0 <= k < i ==> a@[k] == b@[k],
        decreases 32 - i,
    {
        if a[i] != b[i] {
            return false;
        }
        i = i + 1;
    }
    assert(a@ =~= b@);
    true
}

/// The 64 bytes of a filter hash followed by the previous header.
fn concat_hashes(a: &[u8; 32], b: &[u8; 32]) -> (r: Vec<u8>)
    ensures
        r@ == a@ + b@,
{
    let mut r: Vec<u8> = Vec::new();
    let mut i: usize = 0;
    while i < 32
        invariant
            i <= 32,
            a@.len() == 32,
            r@ == a@.subrange(0, i as int),
        decreases 32 - i,
    {
        r.push(a[i]);
        i = i + 1;
    }
    let mut j: usize = 0;
    while j < 32
        invariant
            j <= 32,
            a@.len() == 32,
            b@.len() == 32,
            r@ == a@ + b@.subrange(0, j as int),
        decreases 32 - j,
    {
        r.push(b[j]);
        j = j + 1;
    }
    assert(a@.subrange(0, 32) =~= a@);
    assert(b@.subrange(0, 32) =~= b@);
    r
}

/// The headers that `filter_hashes` lead to from `start`, one per hash.
fn chain_from(start: &[u8; 32], filter_hashes: &Vec<[u8; 32]>) -> (r: Vec<[u8; 32]>)
    ensures
        r@.len() == filter_hashes@.len(),
        forall|k: int| 0 <= k < r@.len() ==> #[trigger] r@[k]@ == chained(start@, hashes_view(filter_hashes@), k + 1),
{
    let ghost fh = hashes_view(filter_hashes@);
    let mut new_headers: Vec<[u8; 32]> = Vec::new();
    let mut prev = *start;
    let mut i: usize = 0;
    while i < filter_hashes.len()
        invariant
            i <= filter_hashes@.len(),
            fh == hashes_view(filter_hashes@),
            new_headers@.len() == i,
            prev@ == chained(start@, fh, i as int),
            forall|k: int| 0 <= k < i ==> #[trigger] new_headers@[k]@ == chained(start@, fh, k + 1),
        decreases filter_hashes@.len() - i,
    {
        let data = concat_hashes(&filter_hashes[i], &prev);
        let next = double_sha256(&data);
        new_headers.push(next);
        prev = next;
        i = i + 1;
    }
    new_headers
}

/// The chain of BIP157 filter headers from a base header: for each height
/// the hash of its filter and the header that commits to it.
#[derive(Debug, Clone)]
pub struct FilterHeaderChain {
    base: [u8; 32],
    filter_hashes: Vec<[u8; 32]>,
    headers: Vec<[u8; 32]>,
}

impl FilterHeaderChain {
    /// The header the chain starts from.
    pub closed spec fn spec_base(&self) -> Seq<u8> {
        self.base@
    }

    /// The filter hashes, one per height.
    pub closed spec fn spec_filter_hashes(&self) -> Seq<Seq<u8>> {
        hashes_view(self.filter_hashes@)
    }

    /// The filter headers, one per height.
    pub closed spec fn spec_headers(&self) -> Seq<Seq<u8>> {
        hashes_view(self.headers@)
    }

    /// The header before height `i`: the base for the first one.
    pub open spec fn previous_header(&self, i: int) -> Seq<u8> {
        if i == 0 {
            self.spec_base()
        } else {
            self.spec_headers()[i - 1]
        }
    }

    /// The header at the top of the chain.
    pub open spec fn spec_tip(&self) -> Seq<u8> {
        self.previous_header(self.spec_headers().len() as int)
    }

    /// Every header commits to its filter hash after its predecessor.
    pub open spec fn wf(&self) -> bool {
        &&& self.spec_filter_hashes().len() == self.spec_headers().len()
        &&& forall|i: int|
            0 <= i < self.spec_headers().len() ==> #[trigger] self.spec_headers()[i] == header_step(
                self.spec_filter_hashes()[i],
                self.previous_header(i),
            )
    }

    /// An empty chain over a base header.
    pub fn new(base: [u8; 32]) -> (c: Self)
        ensures
            c.wf(),
            c.spec_base() == base@,
            c.spec_headers().len() == 0,
    {
        let c = FilterHeaderChain { base, filter_hashes: Vec::new(), headers: Vec::new() };
        assert(c.spec_headers() =~= Seq::<Seq<u8>>::empty());
        assert(c.spec_filter_hashes() =~= Seq::<Seq<u8>>::empty());
        c
    }

    /// Number of headers in the chain.
    pub fn len(&self) -> (n: usize)
        requires
            self.wf(),
        ensures
            n == self.spec_headers().len(),
    {
        self.headers.len()
    }

    /// The header at the top of the chain, or the base where it is empty.
    pub fn tip(&self) -> (r: [u8; 32])
        requires
            self.wf(),
        ensures
            r@ == self.spec_tip(),
    {
        if self.headers.len() == 0 {
            self.base
        } else {
            self.headers[self.headers.len() - 1]
        }
    }

    /// The header at height `i` of the chain.
    pub fn header(&self, i: usize) -> (r: [u8; 32])
        requires
            self.wf(),
            i < self.spec_headers().len(),
        ensures
            r@ == self.spec_headers()[i as int],
    {
        self.headers[i]
    }

    /// Extends the chain by the filter hashes a peer sent. Where a checkpoint
    /// is given, the last header they lead to must equal it; otherwise the
    /// batch is refused and the chain is left as it was.
    pub fn extend(&mut self, filter_hashes: &Vec<[u8; 32]>, checkpoint: Option<[u8; 32]>) -> (r: Result<
        (),
        CompactFiltersError,
    >)
        requires
            old(self).wf(),
        ensures
            final(self).wf(),
            final(self).spec_base() == old(self).spec_base(),
            ({
                let reached = chained(old(self).spec_tip(), hashes_view(filter_hashes@), filter_hashes@.len() as int);
                let accepted = match checkpoint {
                    Some(c) => reached == c@,
                    None => true,
                };
                &&& accepted ==> r is Ok && final(self).spec_filter_hashes() == old(self).spec_filter_hashes()
                    + hashes_view(filter_hashes@) && final(self).spec_tip() == reached
                &&& !accepted ==> (r matches Err(CompactFiltersError::InvalidFilterHeader)) && *final(self)
                    == *old(self)
            }),
    {
        let ghost old_self = *self;
        let ghost fh = hashes_view(filter_hashes@);
        let start = self.tip();
        let new_headers = chain_from(&start, filter_hashes);
        let prev = if new_headers.len() == 0 {
            start
        } else {
            new_headers[new_headers.len() - 1]
        };
        if let Some(c) = checkpoint {
            if !same_hash(&prev, &c) {
                return Err(CompactFiltersError::InvalidFilterHeader);
            }
        }
        let n0 = self.headers.len();
        let mut j: usize = 0;
        while j < filter_hashes.len()
            invariant
                j <= filter_hashes@.len(),
                fh == hashes_view(filter_hashes@),
                new_headers@.len() == filter_hashes@.len(),
                forall|k: int| 0 <= k < filter_hashes@.len() ==> #[trigger] new_headers@[k]@ == chained(start@, fh, k + 1),
                start@ == old_self.spec_tip(),
                old_self.wf(),
                n0 == old_self.spec_headers().len(),
                self.base == old_self.base,
                self.spec_filter_hashes() == old_self.spec_filter_hashes() + fh.subrange(0, j as int),
                self.spec_headers().len() == n0 + j,
                self.wf(),
                self.spec_tip() == chained(start@, fh, j as int),
            decreases filter_hashes@.len() - j,
        {
            proof {
                assert(fh.subrange(0, j + 1) =~= fh.subrange(0, j as int).push(fh[j as int]));
            }
            self.push_header(filter_hashes[j], new_headers[j]);
            j = j + 1;
        }
        proof {
            assert(fh.subrange(0, fh.len() as int) =~= fh);
        }
        Ok(())
    }

    /// Appends one height: its filter hash and the header that commits to it.
    fn push_header(&mut self, filter_hash: [u8; 32], header: [u8; 32])
        requires
            old(self).wf(),
            header@ == header_step(filter_hash@, old(self).spec_tip()),
        ensures
            final(self).wf(),
            final(self).base == old(self).base,
            final(self).spec_filter_hashes() == old(self).spec_filter_hashes().push(filter_hash@),
            final(self).spec_headers() == old(self).spec_headers().push(header@),
            final(self).spec_tip() == header@,
    {
        let ghost before = *self;
        self.filter_hashes.push(filter_hash);
        self.headers.push(header);
        proof {
            assert(self.spec_headers() =~= before.spec_headers().push(header@));
            assert(self.spec_filter_hashes() =~= before.spec_filter_hashes().push(filter_hash@));
            assert forall|k: int| 0 <= k < self.spec_headers().len() implies #[trigger] self.spec_headers()[k]
                == header_step(self.spec_filter_hashes()[k], self.previous_header(k)) by {
                if k < before.spec_headers().len() {
                    assert(before.spec_headers()[k] == header_step(
                        before.spec_filter_hashes()[k],
                        before.previous_header(k),
                    ));
                }
            }
        }
    }

    /// Checks a filter's content against height `i`: its double SHA-256
    /// must be the filter hash that the stored header commits to.
    pub fn check_filter(&self, i: usize, content: &Vec<u8>) -> (r: Result<(), CompactFiltersError>)
        requires
            self.wf(),
            i < self.spec_headers().len(),
        ensures
            r is Ok <==> sha256d(content@) == self.spec_filter_hashes()[i as int],
            r is Ok ==> self.spec_headers()[i as int] == header_step(sha256d(content@), self.previous_header(i as int)),
            r is Err ==> (r matches Err(CompactFiltersError::InvalidFilter)),
    {
        let digest = double_sha256(content);
        if same_hash(&digest, &self.filter_hashes[i]) {
            Ok(())
        } else {
            Err(CompactFiltersError::InvalidFilter)
        }
    }
}

/// In every state a chain can reach, each stored filter header commits to
/// its filter hash after its predecessor, and the headers continue from the
/// chain's base.
pub proof fn lemma_stored_headers_consistent(chain: FilterHeaderChain)
    requires
        chain.wf(),
    ensures
        forall|i: int|
            0 <= i < chain.spec_headers().len() ==> #[trigger] chain.spec_headers()[i] == header_step(
                chain.spec_filter_hashes()[i],
                chain.previous_header(i),
            ),
        forall|i: int|
            0 <= i <= chain.spec_headers().len() ==> #[trigger] chain.previous_header(i) == chained(
                chain.spec_base(),
                chain.spec_filter_hashes(),
                i,
            ),
{
    lemma_chained_prefix(chain, chain.spec_headers().len() as int);
}

proof fn lemma_chained_prefix(chain: FilterHeaderChain, n: int)
    requires
        chain.wf(),
        0 <= n <= chain.spec_headers().len(),
    ensures
        forall|i: int| 0 <= i <= n ==> #[trigger] chain.previous_header(i) == chained(
            chain.spec_base(),
            chain.spec_filter_hashes(),
            i,
        ),
    decreases n,
{
    if n > 0 {
        lemma_chained_prefix(chain, n - 1);
        assert(chain.spec_headers()[n - 1] == header_step(
            chain.spec_filter_hashes()[n - 1],
            chain.previous_header(n - 1),
        ));
    }
}

} // verus!
