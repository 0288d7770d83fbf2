use wifl::download::{esd_step, EsdAction, EsdEvent, EsdFailure, EsdPhase, Sha256Check};

const ABC: &str = "ba7816bf8f01cfea414140de5dae2223b00361a396177a9cb410ff61f20015ad";

#[test]
fn sha256_of_abc_matches_any_case() {
    let mut c = Sha256Check::new();
    c.update(b"abc");
    assert!(c.matches(ABC));
    let mut c = Sha256Check::new();
    c.update(b"abc");
    assert!(c.matches(&ABC.to_uppercase()));
}

#[test]
fn sha256_in_chunks() {
    let mut c = Sha256Check::new();
    c.update(b"a");
    c.update(b"");
    c.update(b"bc");
    assert!(c.matches(ABC));
}

#[test]
fn sha256_of_nothing() {
    let c = Sha256Check::new();
    assert!(c.matches("e3b0c44298fc1c149afbf4c8996fb92427ae41e4649b934ca495991b7852b855"));
}

#[test]
fn sha256_mismatch() {
    let mut c = Sha256Check::new();
    c.update(b"abd");
    assert!(!c.matches(ABC));
    let mut c = Sha256Check::new();
    c.update(b"abc");
    assert!(!c.matches(&ABC[..63]));
}

#[test]
fn cached_file_reused_when_it_matches() {
    let (p, a) = esd_step(EsdPhase::Start, EsdEvent::Begun { exists: true });
    assert_eq!((p, a), (EsdPhase::CheckingCache, EsdAction::CheckFile));
    let (p, a) = esd_step(p, EsdEvent::Checked { matches: true });
    assert_eq!((p, a), (EsdPhase::Ready, EsdAction::Finish));
}

#[test]
fn stale_cache_is_downloaded_again() {
    let (p, _) = esd_step(EsdPhase::Start, EsdEvent::Begun { exists: true });
    let (p, a) = esd_step(p, EsdEvent::Checked { matches: false });
    assert_eq!((p, a), (EsdPhase::RemovingStale, EsdAction::RemoveFile));
    let (p, a) = esd_step(p, EsdEvent::Removed);
    assert_eq!((p, a), (EsdPhase::Downloading, EsdAction::Download));
    let (p, a) = esd_step(p, EsdEvent::Responded { status: 200 });
    assert_eq!((p, a), (EsdPhase::Writing, EsdAction::WriteBody));
    let (p, a) = esd_step(p, EsdEvent::Written);
    assert_eq!((p, a), (EsdPhase::CheckingDownload, EsdAction::CheckFile));
    let (p, a) = esd_step(p, EsdEvent::Checked { matches: true });
    assert_eq!((p, a), (EsdPhase::Ready, EsdAction::Finish));
}

#[test]
fn http_error_fails() {
    let (p, a) = esd_step(EsdPhase::Start, EsdEvent::Begun { exists: false });
    assert_eq!((p, a), (EsdPhase::Downloading, EsdAction::Download));
    let (p, a) = esd_step(p, EsdEvent::Responded { status: 404 });
    assert_eq!(p, EsdPhase::Failed(EsdFailure::HttpStatus(404)));
    assert_eq!(a, EsdAction::Fail(EsdFailure::HttpStatus(404)));
    let (p2, a2) = esd_step(p, EsdEvent::Written);
    assert_eq!((p2, a2), (p, EsdAction::Ignore));
}

#[test]
fn corrupt_download_is_removed_and_fails() {
    let (p, _) = esd_step(EsdPhase::Writing, EsdEvent::Written);
    let (p, a) = esd_step(p, EsdEvent::Checked { matches: false });
    assert_eq!((p, a), (EsdPhase::RemovingCorrupt, EsdAction::RemoveFile));
    let (p, a) = esd_step(p, EsdEvent::Removed);
    assert_eq!(p, EsdPhase::Failed(EsdFailure::Corrupt));
    assert_eq!(a, EsdAction::Fail(EsdFailure::Corrupt));
}

#[test]
fn ready_stays_ready() {
    let (p, a) = esd_step(EsdPhase::Ready, EsdEvent::Checked { matches: false });
    assert_eq!((p, a), (EsdPhase::Ready, EsdAction::Ignore));
}
