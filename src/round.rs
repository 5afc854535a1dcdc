//! One epoch of the protocol: a snapshot of user entries bound to a trusted
//! setup, and the assembly of per-user KZG inclusion proofs.
//!
//! Committing to a column, opening it and checking the opening are done by
//! the caller with the proving system; this module decides what is opened
//! (the column, the row's domain point and the claimed value) and turns the
//! checked openings into the proof handed to the user.
use crate::field::{encode, le_value, reduce, Fp};
use crate::setup::{
    domain_generator, domain_generator_value, parse_setup_exponent, setup_exponent,
    MAX_DOMAIN_EXPONENT,
};
use ethers::types::U256;
use vstd::arithmetic::power::pow;
use vstd::prelude::*;
use vstd::string::StringSliceAdditionalSpecFns;

verus! {

/// ethers' 256-bit unsigned integer, the type of a proof's public inputs;
/// carried through opaquely.
#[verifier::external_type_specification]
#[verifier::external_body]
pub struct ExU256(U256);

/// One user's record: an identity and one balance per currency, each as the
/// little-endian bytes of a non-negative integer.
#[derive(Clone, Debug)]
pub struct Entry {
    pub identity: Vec<u8>,
    pub balances: Vec<Vec<u8>>,
}

impl Entry {
    /// An entry whose identity is the username's bytes read as a big-endian
    /// integer.
    pub fn from_username(username: &str, balances: Vec<Vec<u8>>) -> (r: Entry)
        ensures
            r.identity@ == username.spec_bytes().reverse(),
            r.balances@ == balances@,
    {
        let b = username.as_bytes();
        let n = b.len();
        let mut identity: Vec<u8> = Vec::new();
        let mut i: usize = 0;
        while i < n
            invariant
                n == b@.len(),
                i <= n,
                identity@ =~= Seq::new(i as nat, |t: int| b@[n - 1 - t]),
            decreases n - i,
        {
            identity.push(b[n - 1 - i]);
            i = i + 1;
        }
        proof {
            assert(identity@ =~= b@.reverse());
        }
        Entry { identity, balances }
    }
}

/// Faults found while building a snapshot.
#[derive(Clone, Copy, Debug, PartialEq, Eq, Structural)]
pub enum SnapshotError {
    /// The setup's name does not end in a `-`-delimited decimal exponent.
    MalformedSetupName,
    /// The exponent is beyond the field's two-adicity, or the domain has
    /// fewer rows than there are entries.
    DomainTooSmall,
    /// The number of column polynomials is not one per currency plus one.
    ColumnCountMismatch,
    /// An entry has the wrong number of balances, or a value too wide for
    /// the field encoding.
    MalformedEntry,
}

/// Faults of a proof request.
#[derive(Clone, Copy, Debug, PartialEq, Eq, Structural)]
pub enum ProofError {
    /// The user index is not below the number of entries.
    UserIndexOutOfRange,
    /// The number of openings is not the snapshot's number of columns.
    ColumnCountMismatch,
    /// An opening failed its check against the column's commitment.
    SelfCheckFailed,
}

/// What to open for one column: the column's polynomial is opened at `point`
/// and claimed to take `value` there.
#[derive(Clone, Copy, Debug)]
pub struct OpeningRequest {
    pub column: usize,
    pub point: Fp,
    pub value: Fp,
}

/// An opening as the proving system produced it: the affine coordinates of
/// the proof point, little-endian, and whether it checked against the
/// column's commitment.
#[derive(Clone, Copy, Debug)]
pub struct ColumnOpening {
    pub x: [u8; 32],
    pub y: [u8; 32],
    pub verified: bool,
}

/// A user's inclusion proof: public inputs (none yet) and the concatenated
/// big-endian coordinates of each column's opening.
#[derive(Clone, Debug)]
pub struct KZGInclusionProof {
    public_inputs: Vec<U256>,
    proof_calldata: Vec<u8>,
}

/// The bytes one opening adds to the proof: x then y, each big-endian.
pub open spec fn opening_bytes(o: ColumnOpening) -> Seq<u8> {
    o.x@.reverse() + o.y@.reverse()
}

/// The proof bytes of a sequence of openings, in column order.
pub open spec fn calldata_of(os: Seq<ColumnOpening>) -> Seq<u8>
    decreases os.len(),
{
    if os.len() == 0 {
        Seq::empty()
    } else {
        calldata_of(os.drop_last()) + opening_bytes(os.last())
    }
}

/// An entry fits a snapshot with `n` currencies.
pub open spec fn entry_fits(e: Entry, n: nat) -> bool {
    &&& e.balances@.len() == n
    &&& e.identity@.len() <= 64
    &&& forall|c: int| 0 <= c < n ==> (#[trigger] e.balances@[c])@.len() <= 64
}

/// The value claimed for column `c` of an entry: the identity for column 0,
/// the balance of currency `c - 1` otherwise.
pub open spec fn claimed_value(e: Entry, c: int) -> nat {
    if c == 0 {
        reduce(le_value(e.identity@) as int)
    } else {
        reduce(le_value(e.balances@[c - 1]@) as int)
    }
}

/// What building a snapshot from these inputs fails with, if anything; the
/// name is checked first, then the domain, the columns and the entries.
pub open spec fn construction_fault(
    n_columns: nat,
    entries: Seq<Entry>,
    n_currencies: nat,
    setup_name: Seq<u8>,
) -> Option<SnapshotError> {
    match setup_exponent(setup_name) {
        None => Some(SnapshotError::MalformedSetupName),
        Some(k) => if k > MAX_DOMAIN_EXPONENT || entries.len() > pow(2, k as nat) {
            Some(SnapshotError::DomainTooSmall)
        } else if n_columns != n_currencies + 1 {
            Some(SnapshotError::ColumnCountMismatch)
        } else if exists|i: int| 0 <= i < entries.len() && !entry_fits(#[trigger] entries[i], n_currencies) {
            Some(SnapshotError::MalformedEntry)
        } else {
            None
        },
    }
}

/// One epoch's column polynomials (coefficient form, column 0 the
/// identities, then one per currency) and entries, with the shape of the
/// trusted setup they are proven under.
pub struct Snapshot {
    columns: Vec<Vec<Fp>>,
    entries: Vec<Entry>,
    n_currencies: usize,
    k: u32,
    omega: Fp,
}

/// What a proof request fails with, if anything: the user index is checked
/// first, then the number of openings, then each opening's check.
pub open spec fn inclusion_fault(
    n_entries: nat,
    n_columns: nat,
    user_index: u16,
    openings: Seq<ColumnOpening>,
) -> Option<ProofError> {
    if user_index >= n_entries {
        Some(ProofError::UserIndexOutOfRange)
    } else if openings.len() != n_columns {
        Some(ProofError::ColumnCountMismatch)
    } else if exists|c: int| 0 <= c < openings.len() && !(#[trigger] openings[c]).verified {
        Some(ProofError::SelfCheckFailed)
    } else {
        None
    }
}

/// The domain point of row `user_index`: the generator to that power.
pub open spec fn row_point(k: u32, user_index: u16) -> nat {
    reduce(pow(domain_generator_value(k) as int, user_index as nat))
}

/// Appends the 32 bytes of `le` in reverse order, that is big-endian.
fn push_big_endian(out: &mut Vec<u8>, le: &[u8; 32])
    ensures
        final(out)@ == old(out)@ + le@.reverse(),
{
    let ghost start = out@;
    let mut j: usize = 0;
    while j < 32
        invariant
            j <= 32,
            out@ =~= start + Seq::new(j as nat, |t: int| le@[31 - t]),
        decreases 32 - j,
    {
        out.push(le[31 - j]);
        j = j + 1;
    }
    proof {
        assert(le@.reverse() =~= Seq::new(32, |t: int| le@[31 - t]));
    }
}

/// The proof bytes of the openings, in column order.
fn serialize_openings(openings: &Vec<ColumnOpening>) -> (r: Vec<u8>)
    ensures
        r@ == calldata_of(openings@),
{
    let mut out: Vec<u8> = Vec::new();
    let mut i: usize = 0;
    while i < openings.len()
        invariant
            i <= openings@.len(),
            out@ == calldata_of(openings@.take(i as int)),
        decreases openings@.len() - i,
    {
        let o = openings[i];
        push_big_endian(&mut out, &o.x);
        push_big_endian(&mut out, &o.y);
        proof {
            let t = openings@.take(i + 1);
            assert(t.drop_last() =~= openings@.take(i as int));
            assert(t.last() == o);
            assert(out@ =~= calldata_of(t));
        }
        i = i + 1;
    }
    proof {
        assert(openings@.take(openings@.len() as int) =~= openings@);
    }
    out
}

/// Number of rows of the domain of size `2^k`.
fn domain_rows(k: u32) -> (r: u64)
    requires
        k <= MAX_DOMAIN_EXPONENT,
    ensures
        r == pow(2, k as nat),
{
    let mut r: u64 = 1;
    let mut i: u32 = 0;
    proof {
        vstd::arithmetic::power::lemma_pow0(2);
        vstd::arithmetic::power2::lemma2_to64();
        vstd::arithmetic::power::lemma_pow_positive(2, 28);
    }
    while i < k
        invariant
            i <= k <= MAX_DOMAIN_EXPONENT,
            r == pow(2, i as nat),
            pow(2, 28) == 0x1000_0000,
        decreases k - i,
    {
        proof {
            vstd::arithmetic::power::lemma_pow_adds(2, i as nat, 1);
            vstd::arithmetic::power::lemma_pow1(2);
            vstd::arithmetic::power::lemma_pow_increases(2, (i + 1) as nat, 28);
        }
        r = r * 2;
        i = i + 1;
    }
    r
}

/// Whether an entry fits a snapshot with `n` currencies.
fn check_entry(e: &Entry, n: usize) -> (r: bool)
    ensures
        r == entry_fits(*e, n as nat),
{
    if e.balances.len() != n || e.identity.len() > 64 {
        return false;
    }
    let mut c: usize = 0;
    while c < n
        invariant
            c <= n,
            e.balances@.len() == n,
            forall|d: int| 0 <= d < c ==> (#[trigger] e.balances@[d])@.len() <= 64,
        decreases n - c,
    {
        if e.balances[c].len() > 64 {
            return false;
        }
        c = c + 1;
    }
    true
}

impl KZGInclusionProof {
    pub closed spec fn spec_public_inputs(self) -> Seq<U256> {
        self.public_inputs@
    }

    pub closed spec fn spec_calldata(self) -> Seq<u8> {
        self.proof_calldata@
    }

    /// The proof's public inputs.
    pub fn get_public_inputs(&self) -> (r: &Vec<U256>)
        ensures
            r@ == self.spec_public_inputs(),
    {
        &self.public_inputs
    }

    /// The proof's bytes.
    pub fn get_proof(&self) -> (r: &Vec<u8>)
        ensures
            r@ == self.spec_calldata(),
    {
        &self.proof_calldata
    }
}

impl Snapshot {
    #[verifier::type_invariant]
    spec fn wf(self) -> bool {
        &&& self.k <= MAX_DOMAIN_EXPONENT
        &&& self.entries@.len() <= pow(2, self.k as nat)
        &&& self.columns@.len() == self.n_currencies + 1
        &&& forall|i: int| 0 <= i < self.entries@.len() ==> entry_fits(#[trigger] self.entries@[i], self.n_currencies as nat)
        &&& self.omega.value() == domain_generator_value(self.k)
    }

    pub closed spec fn spec_entries(self) -> Seq<Entry> {
        self.entries@
    }

    pub closed spec fn spec_columns(self) -> Seq<Vec<Fp>> {
        self.columns@
    }

    pub closed spec fn spec_n_currencies(self) -> nat {
        self.n_currencies as nat
    }

    /// The domain-size exponent: the domain has `2^k` rows.
    pub closed spec fn spec_k(self) -> u32 {
        self.k
    }

    /// Binds columns and entries to the trusted setup named `params_path`,
    /// whose last `-`-delimited segment is the domain-size exponent.
    pub fn new(columns: Vec<Vec<Fp>>, entries: Vec<Entry>, n_currencies: usize, params_path: &str) -> (r:
        Result<Snapshot, SnapshotError>)
        ensures
            match r {
                Ok(s) => {
                    &&& construction_fault(
                        columns@.len(),
                        entries@,
                        n_currencies as nat,
                        params_path.spec_bytes(),
                    ) is None
                    &&& s.spec_columns() == columns@
                    &&& s.spec_entries() == entries@
                    &&& s.spec_n_currencies() == n_currencies
                    &&& setup_exponent(params_path.spec_bytes()) == Some(s.spec_k())
                },
                Err(e) => construction_fault(
                    columns@.len(),
                    entries@,
                    n_currencies as nat,
                    params_path.spec_bytes(),
                ) == Some(e),
            },
    {
        let k = match parse_setup_exponent(params_path) {
            None => {
                return Err(SnapshotError::MalformedSetupName);
            },
            Some(k) => k,
        };
        if k > MAX_DOMAIN_EXPONENT {
            return Err(SnapshotError::DomainTooSmall);
        }
        let rows = domain_rows(k);
        if entries.len() as u64 > rows {
            return Err(SnapshotError::DomainTooSmall);
        }
        if columns.len() == 0 || columns.len() - 1 != n_currencies {
            return Err(SnapshotError::ColumnCountMismatch);
        }
        let mut i: usize = 0;
        while i < entries.len()
            invariant
                setup_exponent(params_path.spec_bytes()) == Some(k),
                k <= MAX_DOMAIN_EXPONENT,
                entries@.len() <= pow(2, k as nat),
                columns@.len() == n_currencies + 1,
                i <= entries@.len(),
                forall|j: int| 0 <= j < i ==> entry_fits(#[trigger] entries@[j], n_currencies as nat),
            decreases entries@.len() - i,
        {
            if !check_entry(&entries[i], n_currencies) {
                proof {
                    assert(!entry_fits(entries@[i as int], n_currencies as nat));
                }
                return Err(SnapshotError::MalformedEntry);
            }
            i = i + 1;
        }
        let omega = domain_generator(k);
        Ok(Snapshot { columns, entries, n_currencies, k, omega })
    }

    /// Column `c`'s polynomial in coefficient form, if there is such a column.
    pub fn column(&self, c: usize) -> (r: Option<&Vec<Fp>>)
        ensures
            match r {
                Some(p) => c < self.spec_columns().len() && *p == self.spec_columns()[c as int],
                None => c >= self.spec_columns().len(),
            },
    {
        if c < self.columns.len() {
            Some(&self.columns[c])
        } else {
            None
        }
    }

    /// What to open for user `user_index`, one request per column in column
    /// order: each at the row's domain point, claiming the entry's identity
    /// (column 0) or balance (column `c`, currency `c - 1`).
    pub fn opening_requests(&self, user_index: u16) -> (r: Result<Vec<OpeningRequest>, ProofError>)
        ensures
            match r {
                Ok(v) => {
                    &&& user_index < self.spec_entries().len()
                    &&& v@.len() == self.spec_n_currencies() + 1
                    &&& forall|c: int| 0 <= c < v@.len() ==> {
                        &&& (#[trigger] v@[c]).column == c
                        &&& v@[c].point.value() == row_point(self.spec_k(), user_index)
                        &&& v@[c].value.value() == claimed_value(
                            self.spec_entries()[user_index as int],
                            c,
                        )
                    }
                },
                Err(e) => {
                    &&& user_index >= self.spec_entries().len()
                    &&& e == ProofError::UserIndexOutOfRange
                },
            },
    {
        proof {
            use_type_invariant(self);
        }
        if user_index as usize >= self.entries.len() {
            return Err(ProofError::UserIndexOutOfRange);
        }
        let entry = &self.entries[user_index as usize];
        proof {
            assert(entry_fits(*entry, self.n_currencies as nat));
        }
        let point = self.omega.pow(user_index as u64);
        let mut out: Vec<OpeningRequest> = Vec::new();
        let mut c: usize = 0;
        while c < self.columns.len()
            invariant
                self.columns@.len() == self.n_currencies + 1,
                c <= self.n_currencies + 1,
                (user_index as int) < self.entries@.len(),
                entry_fits(*entry, self.n_currencies as nat),
                *entry == self.entries@[user_index as int],
                point.value() == row_point(self.k, user_index),
                out@.len() == c,
                forall|d: int| 0 <= d < c ==> {
                    &&& (#[trigger] out@[d]).column == d
                    &&& out@[d].point.value() == row_point(self.k, user_index)
                    &&& out@[d].value.value() == claimed_value(*entry, d)
                },
            decreases self.columns@.len() - c,
        {
            let value = if c == 0 {
                encode(&entry.identity)
            } else {
                encode(&entry.balances[c - 1])
            };
            out.push(OpeningRequest { column: c, point, value });
            c = c + 1;
        }
        Ok(out)
    }

    /// The inclusion proof of user `user_index` from the openings the
    /// proving system produced for [`Snapshot::opening_requests`], one per
    /// column in column order. An opening that failed its check is reported,
    /// never passed on.
    pub fn generate_proof_of_inclusion(&self, user_index: u16, openings: &Vec<ColumnOpening>) -> (r:
        Result<KZGInclusionProof, ProofError>)
        ensures
            match r {
                Ok(p) => {
                    &&& inclusion_fault(
                        self.spec_entries().len(),
                        self.spec_n_currencies() + 1,
                        user_index,
                        openings@,
                    ) is None
                    &&& p.spec_calldata() == calldata_of(openings@)
                    &&& p.spec_public_inputs().len() == 0
                },
                Err(e) => inclusion_fault(
                    self.spec_entries().len(),
                    self.spec_n_currencies() + 1,
                    user_index,
                    openings@,
                ) == Some(e),
            },
    {
        proof {
            use_type_invariant(self);
        }
        if user_index as usize >= self.entries.len() {
            return Err(ProofError::UserIndexOutOfRange);
        }
        if openings.len() != self.columns.len() {
            return Err(ProofError::ColumnCountMismatch);
        }
        let mut c: usize = 0;
        while c < openings.len()
            invariant
                (user_index as int) < self.entries@.len(),
                openings@.len() == self.n_currencies + 1,
                c <= openings@.len(),
                forall|d: int| 0 <= d < c ==> (#[trigger] openings@[d]).verified,
            decreases openings@.len() - c,
        {
            if !openings[c].verified {
                proof {
                    assert(!openings@[c as int].verified);
                }
                return Err(ProofError::SelfCheckFailed);
            }
            c = c + 1;
        }
        let proof_calldata = serialize_openings(openings);
        Ok(KZGInclusionProof { public_inputs: Vec::new(), proof_calldata })
    }
}

/// One epoch: a timestamp and the snapshot it proves inclusion against.
pub struct Round {
    timestamp: u64,
    snapshot: Snapshot,
}

impl Round {
    pub closed spec fn spec_timestamp(self) -> u64 {
        self.timestamp
    }

    pub closed spec fn spec_snapshot(self) -> Snapshot {
        self.snapshot
    }

    /// Builds the epoch's snapshot and stamps it with `timestamp`.
    pub fn new(
        columns: Vec<Vec<Fp>>,
        entries: Vec<Entry>,
        n_currencies: usize,
        params_path: &str,
        timestamp: u64,
    ) -> (r: Result<Round, SnapshotError>)
        ensures
            match r {
                Ok(round) => {
                    &&& construction_fault(
                        columns@.len(),
                        entries@,
                        n_currencies as nat,
                        params_path.spec_bytes(),
                    ) is None
                    &&& round.spec_timestamp() == timestamp
                    &&& round.spec_snapshot().spec_columns() == columns@
                    &&& round.spec_snapshot().spec_entries() == entries@
                    &&& round.spec_snapshot().spec_n_currencies() == n_currencies
                    &&& setup_exponent(params_path.spec_bytes()) == Some(
                        round.spec_snapshot().spec_k(),
                    )
                },
                Err(e) => construction_fault(
                    columns@.len(),
                    entries@,
                    n_currencies as nat,
                    params_path.spec_bytes(),
                ) == Some(e),
            },
    {
        match Snapshot::new(columns, entries, n_currencies, params_path) {
            Ok(snapshot) => Ok(Round { timestamp, snapshot }),
            Err(e) => Err(e),
        }
    }

    /// The epoch's snapshot.
    pub fn get_snapshot(&self) -> (r: &Snapshot)
        ensures
            *r == self.spec_snapshot(),
    {
        &self.snapshot
    }

    /// The epoch's timestamp.
    pub fn get_timestamp(&self) -> (r: u64)
        ensures
            r == self.spec_timestamp(),
    {
        self.timestamp
    }

    /// What to open for user `user_index`; see [`Snapshot::opening_requests`].
    pub fn opening_requests(&self, user_index: u16) -> (r: Result<Vec<OpeningRequest>, ProofError>)
        ensures
            match r {
                Ok(v) => {
                    &&& user_index < self.spec_snapshot().spec_entries().len()
                    &&& v@.len() == self.spec_snapshot().spec_n_currencies() + 1
                    &&& forall|c: int| 0 <= c < v@.len() ==> {
                        &&& (#[trigger] v@[c]).column == c
                        &&& v@[c].point.value() == row_point(self.spec_snapshot().spec_k(), user_index)
                        &&& v@[c].value.value() == claimed_value(
                            self.spec_snapshot().spec_entries()[user_index as int],
                            c,
                        )
                    }
                },
                Err(e) => {
                    &&& user_index >= self.spec_snapshot().spec_entries().len()
                    &&& e == ProofError::UserIndexOutOfRange
                },
            },
    {
        self.snapshot.opening_requests(user_index)
    }

    /// The inclusion proof of user `user_index` from the column openings; see
    /// [`Snapshot::generate_proof_of_inclusion`].
    pub fn get_proof_of_inclusion(&self, user_index: u16, openings: &Vec<ColumnOpening>) -> (r:
        Result<KZGInclusionProof, ProofError>)
        ensures
            match r {
                Ok(p) => {
                    &&& inclusion_fault(
                        self.spec_snapshot().spec_entries().len(),
                        self.spec_snapshot().spec_n_currencies() + 1,
                        user_index,
                        openings@,
                    ) is None
                    &&& p.spec_calldata() == calldata_of(openings@)
                    &&& p.spec_public_inputs().len() == 0
                },
                Err(e) => inclusion_fault(
                    self.spec_snapshot().spec_entries().len(),
                    self.spec_snapshot().spec_n_currencies() + 1,
                    user_index,
                    openings@,
                ) == Some(e),
            },
    {
        self.snapshot.generate_proof_of_inclusion(user_index, openings)
    }
}

/// The proof bytes hold 64 bytes per column, and column `c`'s opening sits at
/// bytes `64 * c .. 64 * c + 64`: x then y, big-endian.
pub proof fn lemma_calldata_layout(os: Seq<ColumnOpening>)
    ensures
        calldata_of(os).len() == 64 * os.len(),
        forall|c: int|
            0 <= c < os.len() ==> calldata_of(os).subrange(64 * c, 64 * c + 64) == opening_bytes(
                #[trigger] os[c],
            ),
    decreases os.len(),
{
    if os.len() > 0 {
        let init = os.drop_last();
        lemma_calldata_layout(init);
        let whole = calldata_of(os);
        assert(opening_bytes(os.last()).len() == 64);
        assert forall|c: int| 0 <= c < os.len() implies whole.subrange(64 * c, 64 * c + 64)
            == opening_bytes(#[trigger] os[c]) by {
            if c < os.len() - 1 {
                assert(init[c] == os[c]);
                assert(whole.subrange(64 * c, 64 * c + 64) =~= calldata_of(init).subrange(
                    64 * c,
                    64 * c + 64,
                ));
            } else {
                assert(whole.subrange(64 * c, 64 * c + 64) =~= opening_bytes(os.last()));
            }
        }
    }
}

/// Two proofs that the same snapshot accepted for the same user and the same
/// openings carry the same bytes and the same public inputs.
pub proof fn lemma_inclusion_proof_deterministic(
    s: Snapshot,
    user_index: u16,
    openings: Seq<ColumnOpening>,
    p1: KZGInclusionProof,
    p2: KZGInclusionProof,
)
    requires
        inclusion_fault(s.spec_entries().len(), s.spec_n_currencies() + 1, user_index, openings) is None,
        p1.spec_calldata() == calldata_of(openings),
        p1.spec_public_inputs().len() == 0,
        p2.spec_calldata() == calldata_of(openings),
        p2.spec_public_inputs().len() == 0,
    ensures
        p1.spec_calldata() == p2.spec_calldata(),
        p1.spec_public_inputs() == p2.spec_public_inputs(),
{
    assert(p1.spec_public_inputs() =~= p2.spec_public_inputs());
}

} // verus!
