use draffity_services::ai_openrouter::{ByokAIService, OPENROUTER_KEY, classify_sse_line, key_gate, role_str, SseLine};
use draffity_services::ai::{NoOpAI, Role};
use draffity_services::asr::Transcript;
use draffity_services::backup::{backup_file_id, daily_maintenance_plan, local_ym_prefix, local_ymd_hms_stamp, local_ymd_prefix, parse_stamp_ms, stamp_prefix, BackupService, kind_from_stem, BackupKind, BackupRecord, DailyPlan, LocalBackupService, NoOpBackup};
use draffity_services::error::AppResult;
use std::cell::Cell;
use draffity_services::crash_reporter::{report_from_error, CrashReporterService, CrashReport, LocalFileCrashReporter, NoOpCrashReporter};
use draffity_services::error::AppError;
use draffity_services::media::{hex_digest, media_file_name, media_relative_path, under_media_root, MediaService, NoOpMedia};
use draffity_services::retention_policy::{compute_keep_ids, sort_newest_first};
use draffity_services::secrets::{deletion_from_answer, keyring_error, secret_from_answer, InMemorySecretStorage, KeyringFailure, SecretStorage};
use draffity_services::tts::TTSService;
use std::path::PathBuf;

fn svc(key: Option<&str>) -> ByokAIService<InMemorySecretStorage> {
    let mut secrets = InMemorySecretStorage::new();
    if let Some(k) = key {
        secrets.set_secret(OPENROUTER_KEY, k).unwrap();
    }
    ByokAIService::new(secrets)
}

#[test]
fn available_with_key() {
    let s = svc(Some("sk-abc"));
    assert!(s.available());
}

#[test]
fn unavailable_with_blank_or_missing_key() {
    assert!(!svc(None).available());
    assert!(!svc(Some("   ")).available());
    let e = svc(Some(" ")).gate().unwrap_err();
    assert_eq!(e.message(), "AI provider error: falta la API key de OpenRouter");
    assert_eq!(svc(Some("sk-1")).gate().unwrap(), "sk-1");
    assert!(key_gate(Err(AppError::Unexpected("boom".into()))).is_err());
}

#[test]
fn sse_lines_are_classified() {
    assert_eq!(classify_sse_line(": keepalive"), SseLine::Skip);
    assert_eq!(classify_sse_line("data: [DONE]"), SseLine::Done);
    assert_eq!(classify_sse_line("  data:  {\"a\":1} "), SseLine::Data("{\"a\":1}".into()));
    assert_eq!(role_str(Role::Assistant), "assistant");
}

#[test]
fn noop_ai_is_unavailable() {
    assert!(!NoOpAI.available());
}

#[test]
fn in_memory_round_trips_and_deletes() {
    let mut s = InMemorySecretStorage::new();
    assert_eq!(s.get_secret("k").unwrap(), None);
    s.set_secret("k", "v").unwrap();
    assert_eq!(s.get_secret("k").unwrap(), Some("v".into()));
    s.set_secret("k", "v2").unwrap();
    assert_eq!(s.get_secret("k").unwrap(), Some("v2".into()));
    s.delete_secret("k").unwrap();
    s.delete_secret("k").unwrap();
    assert_eq!(s.get_secret("k").unwrap(), None);
}

#[test]
fn secrets_keep_other_keys() {
    let mut s = InMemorySecretStorage::new();
    s.set_secret("a", "1").unwrap();
    s.set_secret("b", "2").unwrap();
    s.delete_secret("a").unwrap();
    assert_eq!(s.get_secret("b").unwrap(), Some("2".into()));
    assert_eq!(s.get_secret("a").unwrap(), None);
}

#[test]
fn noop_backup_rejects_writes_but_lists_empty() {
    let b = NoOpBackup;
    assert!(b.create_backup(BackupKind::Manual).is_err());
    assert!(b.list_backups().unwrap().is_empty());
    assert!(b.restore_backup("x").is_err());
    assert_eq!(b.prune_old_backups().unwrap(), 0);
}

#[test]
fn backup_names_and_kinds() {
    assert_eq!(backup_file_id("2026-05-28-120000", BackupKind::Daily), "2026-05-28-120000-daily");
    assert_eq!(kind_from_stem("2026-05-28-120000-manual"), Some(BackupKind::Manual));
    assert_eq!(kind_from_stem("2026-05-28-120000-monthly"), Some(BackupKind::Monthly));
    assert_eq!(kind_from_stem("notes"), None);
    let svc = LocalBackupService::new(PathBuf::from("/tmp/db"), PathBuf::from("/tmp/b"));
    assert_eq!(svc.daily_retain(), 7);
    assert_eq!(svc.monthly_retain(), 6);
    let svc = svc.with_retention(2, 1);
    assert_eq!(svc.daily_retain(), 2);
    assert!(svc.build_filename(BackupKind::Manual, 0).ends_with("-manual"));
}

fn rec(id: &str, kind: BackupKind, created_at: i64) -> BackupRecord {
    BackupRecord { id: id.into(), path: format!("/tmp/{id}.db"), created_at, size_bytes: 1, kind }
}

const BASE_MS: i64 = 1_748_433_600_000;
const DAY_MS: i64 = 86_400_000;

#[test]
fn manuals_are_always_kept() {
    let records = vec![
        rec("m1", BackupKind::Manual, BASE_MS),
        rec("m2", BackupKind::Manual, BASE_MS - 365 * DAY_MS),
    ];
    let keep = compute_keep_ids(&records, 0, 0);
    assert!(keep.contains("m1"));
    assert!(keep.contains("m2"));
}

#[test]
fn keeps_top_n_dailies_only() {
    let records: Vec<BackupRecord> =
        (0..10).map(|i| rec(&format!("d{i}"), BackupKind::Daily, BASE_MS - i * DAY_MS)).collect();
    let keep = compute_keep_ids(&records, 3, 0);
    assert!(keep.contains("d0"));
    assert!(keep.contains("d1"));
    assert!(keep.contains("d2"));
    assert!(!keep.contains("d3"));
}

#[test]
fn monthly_slots_pick_newest_per_month() {
    let records = vec![
        rec("may-late", BackupKind::Daily, BASE_MS),
        rec("may-early", BackupKind::Daily, BASE_MS - 5 * DAY_MS),
        rec("apr", BackupKind::Daily, BASE_MS - 35 * DAY_MS),
        rec("mar", BackupKind::Daily, BASE_MS - 70 * DAY_MS),
        rec("feb", BackupKind::Daily, BASE_MS - 100 * DAY_MS),
    ];
    let keep = compute_keep_ids(&records, 0, 3);
    assert!(keep.contains("may-late"));
    assert!(!keep.contains("may-early"));
    assert!(keep.contains("apr"));
    assert!(keep.contains("mar"));
    assert!(!keep.contains("feb"));
}

#[test]
fn dailies_and_monthly_can_overlap() {
    let records = vec![
        rec("d0", BackupKind::Daily, BASE_MS),
        rec("d1", BackupKind::Daily, BASE_MS - DAY_MS),
        rec("d-old", BackupKind::Daily, BASE_MS - 90 * DAY_MS),
    ];
    let keep = compute_keep_ids(&records, 1, 1);
    assert!(keep.contains("d0"));
    assert!(!keep.contains("d-old"));
    assert!(!keep.contains("d1"));
}

#[test]
fn empty_input_returns_empty_set() {
    assert!(compute_keep_ids(&[], 7, 6).is_empty());
}

#[test]
fn dailies_are_ranked_by_recency_not_by_position() {
    let records = vec![
        rec("older", BackupKind::Daily, BASE_MS - 2 * DAY_MS),
        rec("newer", BackupKind::Daily, BASE_MS),
    ];
    let keep = compute_keep_ids(&records, 1, 0);
    assert!(keep.contains("newer"));
    assert!(!keep.contains("older"));
}

#[test]
fn noop_reporter_is_inactive_and_never_writes() {
    let mut r = NoOpCrashReporter;
    assert!(!r.is_active());
    assert!(!r.is_enabled());
    r.set_enabled(true);
    assert!(!r.is_enabled());
    r.record(CrashReport {
        source: "test".into(),
        label: "x".into(),
        message: "y".into(),
        details: String::new(),
        captured_at: 0,
    })
    .unwrap();
}

#[test]
fn report_from_error_uses_display_form() {
    let err = AppError::NotFound("missing".into());
    let r = report_from_error("test", "lookup", &err);
    assert_eq!(r.label, "lookup");
    assert!(r.message.contains("missing"));
    assert_eq!(r.message, "not found: missing");
}

#[test]
fn local_reporter_starts_disabled() {
    let mut r = LocalFileCrashReporter::new(PathBuf::from("/tmp/x"));
    assert!(r.is_active());
    assert!(!r.is_enabled());
    r.set_enabled(true);
    assert!(r.should_write());
}

#[test]
fn noop_rejects_writes_returns_ok_on_delete() {
    let svc = NoOpMedia;
    assert!(svc.store("p", "image/png", b"x").is_err());
    assert!(svc.read("id").is_err());
    assert!(svc.delete("id").is_ok());
}

#[test]
fn plain_transcript_has_no_segments() {
    let t = Transcript::plain("hola");
    assert_eq!(t.text, "hola");
    assert!(t.segments.is_empty());
}

#[test]
fn noop_backup_maintenance_finds_no_backup_and_fails_to_create_one() {
    assert!(!NoOpBackup.has_backup_for_today().unwrap());
    assert!(NoOpBackup.run_daily_maintenance().is_err());
}

struct SilentVoice;

impl TTSService for SilentVoice {
    fn available(&self) -> bool {
        false
    }
}

#[test]
fn tts_defaults_have_no_voices_and_refuse_synthesis() {
    let t = SilentVoice;
    assert!(!t.available());
    assert!(t.voices().is_empty());
    match t.synthesize("hola", "v") {
        Err(AppError::Unsupported(m)) => assert_eq!(m, "la lectura en voz alta no está disponible"),
        _ => panic!("synthesis should be refused"),
    }
}

#[test]
fn stamp_prefix_is_the_first_four_fields() {
    assert_eq!(stamp_prefix("2024-05-01-101500-daily"), "2024-05-01-101500");
    assert_eq!(stamp_prefix("2024-05-01"), "2024-05-01");
    assert_eq!(stamp_prefix("stray"), "stray");
    assert_eq!(stamp_prefix("a-b-c-d-e-f"), "a-b-c-d");
}

#[test]
fn stamps_round_trip_through_local_time() {
    let svc = LocalBackupService::new(PathBuf::from("/db"), PathBuf::from("/b"));
    let ts = BASE_MS;
    let id = svc.build_filename(BackupKind::Daily, ts);
    assert_eq!(parse_stamp_ms(&id), Some(ts - ts % 1000));
    assert_eq!(parse_stamp_ms("garbage-daily"), None);
}

#[test]
fn listing_is_newest_first_and_stable() {
    let records = vec![
        rec("a", BackupKind::Daily, BASE_MS - DAY_MS),
        rec("b", BackupKind::Manual, BASE_MS),
        rec("c", BackupKind::Daily, BASE_MS - DAY_MS),
        rec("d", BackupKind::Monthly, BASE_MS - 3 * DAY_MS),
    ];
    let sorted = sort_newest_first(records);
    let ids: Vec<&str> = sorted.iter().map(|r| r.id.as_str()).collect();
    assert_eq!(ids, vec!["b", "a", "c", "d"]);
    assert!(sort_newest_first(Vec::new()).is_empty());
}

#[test]
fn media_is_addressed_by_sha256() {
    assert_eq!(
        hex_digest(b"abc"),
        "ba7816bf8f01cfea414140de5dae2223b00361a396177a9cb410ff61f20015ad"
    );
    assert_eq!(
        hex_digest(b""),
        "e3b0c44298fc1c149afbf4c8996fb92427ae41e4649b934ca495991b7852b855"
    );
    let sha = hex_digest(b"png-bytes");
    let file = media_file_name(&sha, "png");
    assert_eq!(file, format!("{sha}.png"));
    let rel = media_relative_path("p1", &file);
    assert_eq!(rel, format!("media/p1/{sha}.png"));
    assert_eq!(under_media_root(&rel), format!("p1/{sha}.png"));
    assert_eq!(under_media_root("other/x.png"), "other/x.png");
}

#[test]
fn clock_and_local_time_fallbacks() {
    use_fallbacks();
}

fn use_fallbacks() {
    assert_eq!(draffity_services::clock::epoch_millis_from(Some(1_700_000_000_123)), 1_700_000_000_123);
    assert_eq!(draffity_services::clock::epoch_millis_from(Some(u128::MAX)), 0);
    assert_eq!(draffity_services::clock::epoch_millis_from(None), 0);
    assert!(draffity_services::clock::now_ms() > 1_600_000_000_000);
    assert_eq!(draffity_services::backup::rendered_or(None, "1970-01"), "1970-01");
    assert_eq!(draffity_services::backup::rendered_or(Some("2025-05".into()), "1970-01"), "2025-05");
}

#[test]
fn daily_plan_creates_only_when_today_has_no_backup() {
    assert_eq!(daily_maintenance_plan(false), DailyPlan { create_daily: true, prune: true });
    assert_eq!(daily_maintenance_plan(true), DailyPlan { create_daily: false, prune: true });
}

/// A backup service that remembers whether today's backup exists and
/// counts the calls made on it.
struct CountingBackup {
    has_today: Cell<bool>,
    creates: Cell<u32>,
    prunes: Cell<u32>,
    fail_prune: bool,
}

impl CountingBackup {
    fn new(has_today: bool, fail_prune: bool) -> Self {
        CountingBackup { has_today: Cell::new(has_today), creates: Cell::new(0), prunes: Cell::new(0), fail_prune }
    }
}

impl BackupService for CountingBackup {
    fn create_backup(&self, kind: BackupKind) -> AppResult<BackupRecord> {
        self.creates.set(self.creates.get() + 1);
        self.has_today.set(true);
        Ok(BackupRecord { id: "2025-01-01-000000-daily".into(), path: "/b".into(), created_at: 0, size_bytes: 1, kind })
    }
    fn list_backups(&self) -> AppResult<Vec<BackupRecord>> {
        Ok(Vec::new())
    }
    fn restore_backup(&self, _id: &str) -> AppResult<()> {
        Ok(())
    }
    fn prune_old_backups(&self) -> AppResult<usize> {
        self.prunes.set(self.prunes.get() + 1);
        if self.fail_prune {
            Err(AppError::Unexpected("disk".into()))
        } else {
            Ok(0)
        }
    }
    fn has_backup_for_today(&self) -> AppResult<bool> {
        Ok(self.has_today.get())
    }
}

#[test]
fn second_maintenance_run_on_the_same_day_creates_nothing() {
    let s = CountingBackup::new(false, false);
    assert!(s.run_daily_maintenance().is_ok());
    assert!(s.run_daily_maintenance().is_ok());
    assert_eq!(s.creates.get(), 1);
    assert_eq!(s.prunes.get(), 2);
}

#[test]
fn maintenance_with_todays_backup_only_prunes() {
    let s = CountingBackup::new(true, false);
    assert!(s.run_daily_maintenance().is_ok());
    assert_eq!(s.creates.get(), 0);
    assert_eq!(s.prunes.get(), 1);
}

#[test]
fn maintenance_fails_with_the_pruning_error() {
    let s = CountingBackup::new(false, true);
    let e = s.run_daily_maintenance().unwrap_err();
    assert_eq!(e, AppError::Unexpected("disk".into()));
    assert_eq!(s.creates.get(), 1);
}

fn digits_and_dashes(s: &str, dashes: &[usize]) -> bool {
    s.char_indices().all(|(i, c)| if dashes.contains(&i) { c == '-' } else { c.is_ascii_digit() })
}

#[test]
fn local_stamps_have_their_patterns_shape() {
    let ms = 1_700_000_000_123;
    let day = local_ymd_prefix(ms);
    assert_eq!(day.len(), 10);
    assert!(digits_and_dashes(&day, &[4, 7]));
    let month = local_ym_prefix(ms);
    assert_eq!(month.len(), 7);
    assert!(digits_and_dashes(&month, &[4, 7]));
    assert!(day.starts_with(&month));
    let stamp = local_ymd_hms_stamp(ms);
    assert_eq!(stamp.len(), 17);
    assert!(digits_and_dashes(&stamp, &[4, 7, 10]));
    assert!(stamp.starts_with(&day));
}

fn failure(no_entry: bool, text: &str) -> KeyringFailure {
    KeyringFailure { no_entry, text: text.into() }
}

#[test]
fn keyring_answers_map_to_secrets() {
    assert_eq!(secret_from_answer(Ok("k-123".into())), Ok(Some("k-123".into())));
    assert_eq!(secret_from_answer(Err(failure(true, "No matching entry"))), Ok(None));
    assert_eq!(
        secret_from_answer(Err(failure(false, "locked"))),
        Err(AppError::Unexpected("keyring get: locked".into()))
    );
}

#[test]
fn keyring_answers_map_to_deletions() {
    assert_eq!(deletion_from_answer(Ok(())), Ok(()));
    assert_eq!(deletion_from_answer(Err(failure(true, "No matching entry"))), Ok(()));
    assert_eq!(
        deletion_from_answer(Err(failure(false, "denied"))),
        Err(AppError::Unexpected("keyring delete: denied".into()))
    );
}

#[test]
fn keyring_errors_name_their_step() {
    assert_eq!(keyring_error("open", failure(true, "gone")), AppError::Unexpected("keyring open: gone".into()));
}
