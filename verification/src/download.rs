//! Getting an ESD image into the cache: SHA-256 checking of what is on
//! disk, and the decisions of the download procedure (reuse a cached file
//! whose checksum matches, otherwise download it again and check it).

use vstd::prelude::*;
use crate::text::{chars_of, eq_ignore_ascii_case, eq_ignore_ascii_case_exec};

verus! {

/// A SHA-256 hasher (`sha2::Sha256`, whose type Verus cannot declare: it
/// is an alias of a deeply generic wrapper). Verus sees nothing inside it;
/// what it has absorbed is [`sha256_absorbed`].
#[verifier::external_body]
pub struct Sha256Hasher {
    inner: sha2::Sha256,
}

/// The bytes a SHA-256 hasher has absorbed so far.
pub uninterp spec fn sha256_absorbed(h: Sha256Hasher) -> Seq<u8>;

/// The SHA-256 digest of `data`.
pub uninterp spec fn sha256(data: Seq<u8>) -> Seq<u8>;

/// A fresh SHA-256 hasher (`<sha2::Sha256 as Digest>::new`).
/// Trusted: it has absorbed nothing.
#[verifier::external_body]
fn sha256_new() -> (h: Sha256Hasher)
    ensures
        sha256_absorbed(h) == Seq::<u8>::empty(),
{
    Sha256Hasher { inner: <sha2::Sha256 as sha2::Digest>::new() }
}

/// Feeds `data` to the hasher (`Digest::update`).
/// Trusted: what it has absorbed grows by `data`.
#[verifier::external_body]
fn sha256_update(h: &mut Sha256Hasher, data: &[u8])
    ensures
        sha256_absorbed(*final(h)) == sha256_absorbed(*old(h)) + data@,
{
    sha2::Digest::update(&mut h.inner, data);
}

/// The digest of what the hasher absorbed (`Digest::finalize`).
/// Trusted: it is [`sha256`] of the absorbed bytes; SHA-256 digests are 32
/// bytes long.
#[verifier::external_body]
fn sha256_finalize(h: Sha256Hasher) -> (d: Vec<u8>)
    ensures
        d@ == sha256(sha256_absorbed(h)),
        d@.len() == 32,
{
    sha2::Digest::finalize(h.inner).to_vec()
}

/// The lower-case hexadecimal digit for `d` (below 16).
pub open spec fn hex_digit_lower(d: nat) -> char {
    if d < 10 {
        (d + 48) as char
    } else {
        (d - 10 + 97) as char
    }
}

/// `bytes` in lower-case hexadecimal, two digits per byte, high nibble first.
pub open spec fn hex_lower(bytes: Seq<u8>) -> Seq<char>
    decreases bytes.len(),
{
    if bytes.len() == 0 {
        Seq::empty()
    } else {
        hex_lower(bytes.drop_last()) + seq![
            hex_digit_lower((bytes.last() / 16) as nat),
            hex_digit_lower((bytes.last() % 16) as nat),
        ]
    }
}

/// `bytes` in hexadecimal (`hex::encode`).
/// Trusted: two lower-case digits per byte, high nibble first.
#[verifier::external_body]
fn hex_encode(bytes: &[u8]) -> (s: String)
    ensures
        s@ == hex_lower(bytes@),
{
    hex::encode(bytes)
}

/// A running SHA-256 check of a file against the digest the catalogue gives.
pub struct Sha256Check {
    hasher: Sha256Hasher,
}

impl Sha256Check {
    /// The bytes fed so far.
    pub closed spec fn fed(&self) -> Seq<u8> {
        sha256_absorbed(self.hasher)
    }

    /// A check that has been fed nothing.
    pub fn new() -> (c: Sha256Check)
        ensures
            c.fed() == Seq::<u8>::empty(),
    {
        Sha256Check { hasher: sha256_new() }
    }

    /// Feeds the next bytes of the file.
    pub fn update(&mut self, chunk: &[u8])
        ensures
            final(self).fed() == old(self).fed() + chunk@,
    {
        sha256_update(&mut self.hasher, chunk);
    }

    /// Whether the SHA-256 digest of what was fed, in hexadecimal, equals
    /// `expected` up to ASCII case.
    pub fn matches(self, expected: &str) -> (ok: bool)
        ensures
            ok == eq_ignore_ascii_case(hex_lower(sha256(self.fed())), expected@),
    {
        let digest = sha256_finalize(self.hasher);
        let hex = hex_encode(digest.as_slice());
        let a = chars_of(hex.as_str());
        let b = chars_of(expected);
        eq_ignore_ascii_case_exec(a.as_slice(), b.as_slice())
    }
}

/// Two texts equal up to ASCII case are interchangeable as expected checksums.
pub proof fn law_checksum_ignores_case(digest: Seq<char>, a: Seq<char>, b: Seq<char>)
    requires
        eq_ignore_ascii_case(a, b),
    ensures
        eq_ignore_ascii_case(digest, a) == eq_ignore_ascii_case(digest, b),
{
}

/// Hexadecimal takes two digits per byte.
pub proof fn lemma_hex_lower_len(bytes: Seq<u8>)
    ensures
        hex_lower(bytes).len() == 2 * bytes.len(),
    decreases bytes.len(),
{
    if bytes.len() > 0 {
        lemma_hex_lower_len(bytes.drop_last());
    }
}

/// A file can only match a checksum of 64 characters: the digest has 32
/// bytes, so 64 hexadecimal digits.
pub proof fn law_match_needs_64_digits(fed: Seq<u8>, expected: Seq<char>)
    requires
        sha256(fed).len() == 32,
        eq_ignore_ascii_case(hex_lower(sha256(fed)), expected),
    ensures
        expected.len() == 64,
{
    lemma_hex_lower_len(sha256(fed));
}

// ---------------------------------------------------------------------------
// The download procedure
// ---------------------------------------------------------------------------

/// Why getting the ESD failed.
#[derive(Clone, Copy, Debug, PartialEq, Eq, Structural)]
pub enum EsdFailure {
    /// The server answered with this non-success HTTP status.
    HttpStatus(u16),
    /// The downloaded file does not have the expected checksum (it has
    /// been removed).
    Corrupt,
}

/// Where the procedure stands.
#[derive(Clone, Copy, Debug, PartialEq, Eq, Structural)]
pub enum EsdPhase {
    /// Nothing done yet.
    Start,
    /// Checking the checksum of a cached file.
    CheckingCache,
    /// Removing a cached file whose checksum did not match.
    RemovingStale,
    /// Waiting for the server's answer.
    Downloading,
    /// Writing the answer's body to the file.
    Writing,
    /// Checking the checksum of the downloaded file.
    CheckingDownload,
    /// Removing a downloaded file whose checksum did not match.
    RemovingCorrupt,
    /// The file is there and its checksum matches.
    Ready,
    /// The procedure failed.
    Failed(EsdFailure),
}

/// What happened since the last step.
#[derive(Clone, Copy, Debug, PartialEq, Eq, Structural)]
pub enum EsdEvent {
    /// The procedure begins; whether the file already exists.
    Begun { exists: bool },
    /// The file's checksum was computed; whether it matches.
    Checked { matches: bool },
    /// The file was removed.
    Removed,
    /// The server answered with this HTTP status.
    Responded { status: u16 },
    /// The whole body was written to the file.
    Written,
}

/// What to do next.
#[derive(Clone, Copy, Debug, PartialEq, Eq, Structural)]
pub enum EsdAction {
    /// Compute the file's checksum and report whether it matches.
    CheckFile,
    /// Remove the file.
    RemoveFile,
    /// Send the download request and report the status.
    Download,
    /// Write the answer's body to the file.
    WriteBody,
    /// Stop: the file is ready.
    Finish,
    /// Stop: the procedure failed.
    Fail(EsdFailure),
    /// The event does not apply here; nothing to do.
    Ignore,
}

/// An HTTP status in the success range (200 to 299).
pub open spec fn is_success_status(status: u16) -> bool {
    200 <= status && status <= 299
}

/// One step of the procedure: reuse a cached file whose checksum matches;
/// otherwise remove it, download the file, check it, and remove it again if
/// its checksum does not match.
pub open spec fn spec_esd_step(phase: EsdPhase, event: EsdEvent) -> (EsdPhase, EsdAction) {
    match (phase, event) {
        (EsdPhase::Start, EsdEvent::Begun { exists }) => if exists {
            (EsdPhase::CheckingCache, EsdAction::CheckFile)
        } else {
            (EsdPhase::Downloading, EsdAction::Download)
        },
        (EsdPhase::CheckingCache, EsdEvent::Checked { matches }) => if matches {
            (EsdPhase::Ready, EsdAction::Finish)
        } else {
            (EsdPhase::RemovingStale, EsdAction::RemoveFile)
        },
        (EsdPhase::RemovingStale, EsdEvent::Removed) => (EsdPhase::Downloading, EsdAction::Download),
        (EsdPhase::Downloading, EsdEvent::Responded { status }) => if is_success_status(status) {
            (EsdPhase::Writing, EsdAction::WriteBody)
        } else {
            (
                EsdPhase::Failed(EsdFailure::HttpStatus(status)),
                EsdAction::Fail(EsdFailure::HttpStatus(status)),
            )
        },
        (EsdPhase::Writing, EsdEvent::Written) => (EsdPhase::CheckingDownload, EsdAction::CheckFile),
        (EsdPhase::CheckingDownload, EsdEvent::Checked { matches }) => if matches {
            (EsdPhase::Ready, EsdAction::Finish)
        } else {
            (EsdPhase::RemovingCorrupt, EsdAction::RemoveFile)
        },
        (EsdPhase::RemovingCorrupt, EsdEvent::Removed) => (
            EsdPhase::Failed(EsdFailure::Corrupt),
            EsdAction::Fail(EsdFailure::Corrupt),
        ),
        _ => (phase, EsdAction::Ignore),
    }
}

/// One step of the procedure (see [`spec_esd_step`]).
pub fn esd_step(phase: EsdPhase, event: EsdEvent) -> (r: (EsdPhase, EsdAction))
    ensures
        r == spec_esd_step(phase, event),
{
    match (phase, event) {
        (EsdPhase::Start, EsdEvent::Begun { exists }) => if exists {
            (EsdPhase::CheckingCache, EsdAction::CheckFile)
        } else {
            (EsdPhase::Downloading, EsdAction::Download)
        },
        (EsdPhase::CheckingCache, EsdEvent::Checked { matches }) => if matches {
            (EsdPhase::Ready, EsdAction::Finish)
        } else {
            (EsdPhase::RemovingStale, EsdAction::RemoveFile)
        },
        (EsdPhase::RemovingStale, EsdEvent::Removed) => (EsdPhase::Downloading, EsdAction::Download),
        (EsdPhase::Downloading, EsdEvent::Responded { status }) => if 200 <= status && status <= 299 {
            (EsdPhase::Writing, EsdAction::WriteBody)
        } else {
            (
                EsdPhase::Failed(EsdFailure::HttpStatus(status)),
                EsdAction::Fail(EsdFailure::HttpStatus(status)),
            )
        },
        (EsdPhase::Writing, EsdEvent::Written) => (EsdPhase::CheckingDownload, EsdAction::CheckFile),
        (EsdPhase::CheckingDownload, EsdEvent::Checked { matches }) => if matches {
            (EsdPhase::Ready, EsdAction::Finish)
        } else {
            (EsdPhase::RemovingCorrupt, EsdAction::RemoveFile)
        },
        (EsdPhase::RemovingCorrupt, EsdEvent::Removed) => (
            EsdPhase::Failed(EsdFailure::Corrupt),
            EsdAction::Fail(EsdFailure::Corrupt),
        ),
        _ => (phase, EsdAction::Ignore),
    }
}

/// The phase after a sequence of events, starting from `phase`.
pub open spec fn esd_run(phase: EsdPhase, events: Seq<EsdEvent>) -> EsdPhase
    decreases events.len(),
{
    if events.len() == 0 {
        phase
    } else {
        esd_run(spec_esd_step(phase, events[0]).0, events.drop_first())
    }
}

/// The procedure ends well only on a matching checksum: whatever happens,
/// it reaches `Ready` only in a step that reports a matching checksum, and
/// once it has ended (well or not) it stays so.
pub proof fn law_ready_only_on_matching_checksum(phase: EsdPhase, event: EsdEvent)
    ensures
        phase != EsdPhase::Ready && spec_esd_step(phase, event).0 == EsdPhase::Ready ==> event
            == (EsdEvent::Checked { matches: true }),
        phase == EsdPhase::Ready ==> spec_esd_step(phase, event).0 == EsdPhase::Ready,
        phase is Failed ==> spec_esd_step(phase, event).0 == phase,
{
}

/// No run of the procedure yields a file that was not checked: if a run
/// from the start ends `Ready`, one of its events reported a matching
/// checksum.
pub proof fn law_no_unchecked_file(events: Seq<EsdEvent>)
    ensures
        esd_run(EsdPhase::Start, events) == EsdPhase::Ready ==> exists|i: int|
            0 <= i < events.len() && events[i] == (EsdEvent::Checked { matches: true }),
{
    lemma_run_ready(EsdPhase::Start, events);
}

proof fn lemma_run_ready(phase: EsdPhase, events: Seq<EsdEvent>)
    requires
        phase != EsdPhase::Ready,
    ensures
        esd_run(phase, events) == EsdPhase::Ready ==> exists|i: int|
            0 <= i < events.len() && events[i] == (EsdEvent::Checked { matches: true }),
    decreases events.len(),
{
    if events.len() > 0 && esd_run(phase, events) == EsdPhase::Ready {
        let next = spec_esd_step(phase, events[0]).0;
        if next == EsdPhase::Ready {
            assert(events[0] == (EsdEvent::Checked { matches: true }));
        } else {
            lemma_run_ready(next, events.drop_first());
            let i = choose|i: int|
                0 <= i < events.drop_first().len() && events.drop_first()[i] == (EsdEvent::Checked {
                    matches: true,
                });
            assert(events[i + 1] == events.drop_first()[i]);
        }
    }
}

} // verus!
