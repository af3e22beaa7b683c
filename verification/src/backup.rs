//! Backups of the project database: the record of a backup file, the
//! naming scheme of the files, and the service stand-in used when backups
//! are disabled. Copying files is left to the caller.
use vstd::prelude::*;
use vstd::string::*;

use crate::clock::{epoch_nanos, epoch_nanos_spec, epoch_secs, epoch_secs_spec, local_rendered_or, local_rendering};
use std::path::PathBuf;

use crate::error::{AppError, AppResult};
use crate::text::{
    chars_of, ends_with, ends_with_exec, slice_chars, starts_with, starts_with_exec, string_of,
};
use chrono::{Local, NaiveDateTime, TimeZone};

verus! {

/// Kind of backup: the automatic once-a-day snapshot, the surviving
/// last-of-month tag, or one made on demand.
#[derive(Debug, Clone, Copy, PartialEq, Eq, Structural)]
pub enum BackupKind {
    Daily,
    Monthly,
    Manual,
}

/// A backup file.
#[derive(Debug, Clone, PartialEq, Eq)]
pub struct BackupRecord {
    /// File name without extension; stable id for restore.
    pub id: String,
    /// Absolute path on disk.
    pub path: String,
    /// Epoch milliseconds when the file was written.
    pub created_at: i64,
    /// Size of the backup file in bytes.
    pub size_bytes: u64,
    pub kind: BackupKind,
}

/// The file-name suffix of a kind.
pub open spec fn kind_suffix(k: BackupKind) -> Seq<char> {
    match k {
        BackupKind::Daily => "daily"@,
        BackupKind::Monthly => "monthly"@,
        BackupKind::Manual => "manual"@,
    }
}

/// The kind a file stem names by its suffix, if any.
pub open spec fn stem_kind(stem: Seq<char>) -> Option<BackupKind> {
    if ends_with(stem, "-daily"@) {
        Some(BackupKind::Daily)
    } else if ends_with(stem, "-monthly"@) {
        Some(BackupKind::Monthly)
    } else if ends_with(stem, "-manual"@) {
        Some(BackupKind::Manual)
    } else {
        None
    }
}

/// The kind of a backup file from its stem; unrecognised names give `None`
/// and are left alone.
pub fn kind_from_stem(stem: &str) -> (r: Option<BackupKind>)
    ensures
        r == stem_kind(stem@),
{
    let v = chars_of(stem);
    let d = chars_of("-daily");
    let mo = chars_of("-monthly");
    let ma = chars_of("-manual");
    if ends_with_exec(&v, &d) {
        Some(BackupKind::Daily)
    } else if ends_with_exec(&v, &mo) {
        Some(BackupKind::Monthly)
    } else if ends_with_exec(&v, &ma) {
        Some(BackupKind::Manual)
    } else {
        None
    }
}

/// The id of a backup file: its time stamp, a hyphen and the kind.
pub fn backup_file_id(stamp: &str, kind: BackupKind) -> (r: String)
    ensures
        r@ == stamp@ + "-"@ + kind_suffix(kind),
{
    let mut s = String::from_str(stamp);
    s.append("-");
    let suffix = match kind {
        BackupKind::Daily => "daily",
        BackupKind::Monthly => "monthly",
        BackupKind::Manual => "manual",
    };
    s.append(suffix);
    s
}

/// A rendered local time, or `fallback` when the local time is undefined.
pub fn rendered_or(rendered: Option<String>, fallback: &str) -> (r: String)
    ensures
        r@ == match rendered {
            Some(s) => s@,
            None => fallback@,
        },
{
    match rendered {
        Some(s) => s,
        None => String::from_str(fallback),
    }
}

/// Whether `stamp` is the `YYYY-MM-DD-HHMMSS` local rendering of the
/// seconds and nanoseconds of `epoch_ms`, or `1970-01-01-000000` where the
/// local time is undefined.
pub open spec fn local_ymd_hms_rendering(epoch_ms: i64, stamp: Seq<char>) -> bool {
    local_rendering(
        epoch_secs_spec(epoch_ms) as i64,
        epoch_nanos_spec(epoch_ms) as u32,
        "%Y-%m-%d-%H%M%S",
        "1970-01-01-000000"@,
        stamp,
    )
}

/// `YYYY-MM-DD-HHMMSS` in local time (the rotation is one per day from the
/// user's point of view) of the timestamp's seconds and nanoseconds;
/// `1970-01-01-000000` when the local time is undefined. The rendering
/// depends on the machine's time zone.
pub fn local_ymd_hms_stamp(epoch_ms: i64) -> (r: String)
    ensures
        local_ymd_hms_rendering(epoch_ms, r@),
{
    local_rendered_or(epoch_secs(epoch_ms), epoch_nanos(epoch_ms), "%Y-%m-%d-%H%M%S", "1970-01-01-000000")
}

/// `YYYY-MM-DD` of a timestamp's whole seconds in local time;
/// `1970-01-01` when the local time is undefined.
pub fn local_ymd_prefix(epoch_ms: i64) -> (r: String)
    ensures
        local_rendering(epoch_secs_spec(epoch_ms) as i64, 0u32, "%Y-%m-%d", "1970-01-01"@, r@),
{
    local_rendered_or(epoch_secs(epoch_ms), 0, "%Y-%m-%d", "1970-01-01")
}

/// `YYYY-MM` of a timestamp's whole seconds in local time; `1970-01` when
/// the local time is undefined.
pub fn local_ym_prefix(epoch_ms: i64) -> (r: String)
    ensures
        local_rendering(epoch_secs_spec(epoch_ms) as i64, 0u32, "%Y-%m", "1970-01"@, r@),
{
    local_rendered_or(epoch_secs(epoch_ms), 0, "%Y-%m", "1970-01")
}

/// The number of `-` characters in `s`.
pub open spec fn dash_count(s: Seq<char>) -> nat
    decreases s.len(),
{
    if s.len() == 0 {
        0
    } else {
        dash_count(s.drop_last()) + (if s.last() == '-' {
            1nat
        } else {
            0nat
        })
    }
}

/// The time-stamp part of a backup stem, `YYYY-MM-DD-HHMMSS`: the first
/// four `-`-separated fields joined back with `-`, that is everything
/// before the fourth `-` (the whole stem when it has fewer).
pub fn stamp_prefix(stem: &str) -> (r: String)
    ensures
        r@ == stem@.take(r@.len() as int),
        dash_count(r@) <= 3,
        r@.len() == stem@.len() || (stem@[r@.len() as int] == '-' && dash_count(r@) == 3),
{
    let v = chars_of(stem);
    let mut i: usize = 0;
    let mut count: usize = 0;
    while i < v.len()
        invariant_except_break
            i <= v@.len(),
            count <= 3,
            count == dash_count(v@.take(i as int)),
        ensures
            i <= v@.len(),
            count <= 3,
            count == dash_count(v@.take(i as int)),
            i == v@.len() || (v@[i as int] == '-' && count == 3),
        decreases v@.len() - i,
    {
        assert(v@.take(i + 1).drop_last() =~= v@.take(i as int));
        if v[i] == '-' {
            if count == 3 {
                break;
            }
            count += 1;
        }
        i += 1;
    }
    let out = slice_chars(&v, 0, i);
    assert(out@ =~= v@.take(i as int));
    string_of(&out)
}

/// `chrono::NaiveDateTime::parse_from_str(text, "%Y-%m-%d-%H%M%S")`, then
/// `Local::from_local_datetime(..).single()` and `timestamp_millis`: the
/// epoch milliseconds of a local wall-clock stamp, `None` when it does not
/// parse or names no single instant. It depends on the machine's time
/// zone, so no clause ties it to `text`.
#[verifier::external_body]
fn local_stamp_millis(text: &str) -> Option<i64> {
    match NaiveDateTime::parse_from_str(text, "%Y-%m-%d-%H%M%S") {
        Ok(dt) => Local.from_local_datetime(&dt).single().map(|d| d.timestamp_millis()),
        Err(_) => None,
    }
}

/// `p` is the time-stamp part of the stem `stem`: its text up to, not
/// including, the fourth `-` (the whole stem when it has fewer).
pub open spec fn stamp_part(stem: Seq<char>, p: Seq<char>) -> bool {
    &&& p == stem.take(p.len() as int)
    &&& dash_count(p) <= 3
    &&& p.len() == stem.len() || (stem[p.len() as int] == '-' && dash_count(p) == 3)
}

/// `r` is what `local_stamp_millis` gave for the stamp part of `stem`.
pub closed spec fn stamp_millis(stem: Seq<char>, r: Option<i64>) -> bool {
    exists|p: &str|
        #![trigger call_ensures(local_stamp_millis, (p,), r)]
        stamp_part(stem, p@) && call_ensures(local_stamp_millis, (p,), r)
}

/// The creation time a backup stem's stamp encodes, read in local time;
/// `None` when the stem carries no valid stamp. The stamp part of the stem
/// is what is read (see `stamp_part`); the reading depends on the
/// machine's time zone.
pub fn parse_stamp_ms(stem: &str) -> (r: Option<i64>)
    ensures
        stamp_millis(stem@, r),
{
    let prefix = stamp_prefix(stem);
    let p = prefix.as_str();
    let r = local_stamp_millis(p);
    assert(stamp_part(stem@, p@));
    assert(call_ensures(local_stamp_millis, (p,), r));
    r
}

/// Whether some backup's id starts with `prefix` (today's date, for the
/// once-a-day check).
pub fn any_id_starts_with(records: &[BackupRecord], prefix: &str) -> (r: bool)
    ensures
        r == exists|i: int| 0 <= i < records@.len() && starts_with(#[trigger] records@[i].id@, prefix@),
{
    let p = chars_of(prefix);
    let mut i: usize = 0;
    while i < records.len()
        invariant
            i <= records@.len(),
            p@ == prefix@,
            forall|j: int| 0 <= j < i ==> !starts_with(#[trigger] records@[j].id@, prefix@),
        decreases records@.len() - i,
    {
        let id = chars_of(records[i].id.as_str());
        if starts_with_exec(&id, &p) {
            return true;
        }
        i += 1;
    }
    false
}

/// Backup service used when backups are disabled: writes are refused and
/// the list is empty.
#[derive(Debug, Default, Clone, Copy)]
pub struct NoOpBackup;

/// The refusal of a disabled backup service.
pub open spec fn backups_disabled(e: AppError) -> bool {
    e == AppError::Unsupported(e->Unsupported_0) && e->Unsupported_0@ == "backups disabled"@
}

/// What the startup task does once it knows whether today's backup
/// exists: whether it makes a daily backup, and whether it prunes.
#[derive(Debug, Clone, Copy, PartialEq, Eq, Structural)]
pub struct DailyPlan {
    pub create_daily: bool,
    pub prune: bool,
}

/// The startup plan: a daily backup only when none exists for today;
/// pruning always.
pub open spec fn maintenance_plan(found_today: bool) -> DailyPlan {
    DailyPlan { create_daily: !found_today, prune: true }
}

/// The plan of the startup task for the answer of the check for today's
/// backup.
pub fn daily_maintenance_plan(found_today: bool) -> (p: DailyPlan)
    ensures
        p == maintenance_plan(found_today),
{
    DailyPlan { create_daily: !found_today, prune: true }
}

/// A run of the startup task never plans a second daily backup on a day
/// that already has one, and always plans the pruning.
pub proof fn lemma_plan_creates_only_when_missing(found_today: bool)
    ensures
        maintenance_plan(found_today).create_daily <==> !found_today,
        found_today ==> !maintenance_plan(found_today).create_daily,
        maintenance_plan(found_today).prune,
{
}

/// Creates, lists, restores and prunes database backups.
pub trait BackupService {
    /// Write a backup of the live database.
    fn create_backup(&self, kind: BackupKind) -> AppResult<BackupRecord>;

    /// The backups on disk, newest first.
    fn list_backups(&self) -> AppResult<Vec<BackupRecord>>;

    /// Put a backup back in place of the live database.
    fn restore_backup(&self, id: &str) -> AppResult<()>;

    /// Apply the retention policy; the number of files removed.
    fn prune_old_backups(&self) -> AppResult<usize>;

    /// The startup task: check for today's backup, then carry out the plan
    /// `daily_maintenance_plan` makes of the answer: make today's daily
    /// backup only when none exists (so a second run on the same day
    /// creates nothing), then prune. It succeeds when the check and each
    /// planned step succeed, and otherwise fails with the first error, the
    /// steps after it left undone.
    fn run_daily_maintenance(&self) -> (r: AppResult<()>)
        default_ensures
            match r {
                Ok(()) => exists|h: bool|
                    #![trigger call_ensures(Self::has_backup_for_today, (self,), Ok::<bool, AppError>(h))]
                    call_ensures(Self::has_backup_for_today, (self,), Ok::<bool, AppError>(h)) && (
                    maintenance_plan(h).create_daily ==> exists|rec: BackupRecord|
                        #![trigger call_ensures(Self::create_backup, (self, BackupKind::Daily), Ok::<BackupRecord, AppError>(rec))]
                        call_ensures(
                            Self::create_backup,
                            (self, BackupKind::Daily),
                            Ok::<BackupRecord, AppError>(rec),
                        )) && (maintenance_plan(h).prune ==> exists|n: usize|
                        #![trigger call_ensures(Self::prune_old_backups, (self,), Ok::<usize, AppError>(n))]
                        call_ensures(Self::prune_old_backups, (self,), Ok::<usize, AppError>(n))),
                Err(e) => call_ensures(Self::has_backup_for_today, (self,), Err::<bool, AppError>(e))
                    || exists|h: bool|
                    #![trigger call_ensures(Self::has_backup_for_today, (self,), Ok::<bool, AppError>(h))]
                    call_ensures(Self::has_backup_for_today, (self,), Ok::<bool, AppError>(h)) && ((
                    maintenance_plan(h).create_daily && call_ensures(
                        Self::create_backup,
                        (self, BackupKind::Daily),
                        Err::<BackupRecord, AppError>(e),
                    )) || ((maintenance_plan(h).create_daily ==> exists|rec: BackupRecord|
                        #![trigger call_ensures(Self::create_backup, (self, BackupKind::Daily), Ok::<BackupRecord, AppError>(rec))]
                        call_ensures(
                            Self::create_backup,
                            (self, BackupKind::Daily),
                            Ok::<BackupRecord, AppError>(rec),
                        )) && maintenance_plan(h).prune && call_ensures(
                        Self::prune_old_backups,
                        (self,),
                        Err::<usize, AppError>(e),
                    ))),
            },
    {
        let hr = self.has_backup_for_today();
        let found_today = match hr {
            Ok(h) => h,
            Err(e) => {
                return Err(e);
            },
        };
        let plan = daily_maintenance_plan(found_today);
        let ghost created: Option<BackupRecord> = None;
        if plan.create_daily {
            let cr = self.create_backup(BackupKind::Daily);
            match cr {
                Ok(rec) => {
                    proof {
                        created = Some(rec);
                    }
                },
                Err(e) => {
                    proof {
                        assert(call_ensures(Self::has_backup_for_today, (self,), Ok::<bool, AppError>(found_today)));
                    }
                    return Err(e);
                },
            }
        }
        proof {
            if plan.create_daily {
                assert(call_ensures(
                    Self::create_backup,
                    (self, BackupKind::Daily),
                    Ok::<BackupRecord, AppError>(created->0),
                ));
            }
        }
        if plan.prune {
            let pr = self.prune_old_backups();
            match pr {
                Ok(n) => {
                    proof {
                        assert(call_ensures(Self::prune_old_backups, (self,), Ok::<usize, AppError>(n)));
                    }
                },
                Err(e) => {
                    proof {
                        assert(call_ensures(Self::has_backup_for_today, (self,), Ok::<bool, AppError>(found_today)));
                    }
                    return Err(e);
                },
            }
        }
        proof {
            assert(call_ensures(Self::has_backup_for_today, (self,), Ok::<bool, AppError>(found_today)));
        }
        Ok(())
    }

    /// Whether a listed backup's id starts with today's local date (the
    /// date of the clock in the machine's time zone); a failed listing
    /// fails with its error.
    fn has_backup_for_today(&self) -> (r: AppResult<bool>)
        default_ensures
            match r {
                Ok(b) => exists|l: Vec<BackupRecord>, t: i64, today: String|
                    #![trigger call_ensures(Self::list_backups, (self,), Ok::<Vec<BackupRecord>, AppError>(l)), call_ensures(local_ymd_prefix, (t,), today)]
                    call_ensures(Self::list_backups, (self,), Ok::<Vec<BackupRecord>, AppError>(l))
                        && call_ensures(crate::clock::now_ms, (), t) && call_ensures(
                        local_ymd_prefix,
                        (t,),
                        today,
                    ) && b == exists|i: int|
                        0 <= i < l@.len() && starts_with(#[trigger] l@[i].id@, today@),
                Err(e) => call_ensures(
                    Self::list_backups,
                    (self,),
                    Err::<Vec<BackupRecord>, AppError>(e),
                ),
            },
    {
        let now = crate::clock::now_ms();
        let today = local_ymd_prefix(now);
        match self.list_backups() {
            Ok(list) => {
                let b = any_id_starts_with(&list, today.as_str());
                Ok(b)
            },
            Err(e) => Err(e),
        }
    }
}

impl BackupService for NoOpBackup {
    /// Always refused.
    fn create_backup(&self, kind: BackupKind) -> (r: AppResult<BackupRecord>)
        ensures
            r matches Err(e) && backups_disabled(e),
    {
        Err(AppError::Unsupported(String::from_str("backups disabled")))
    }

    /// Always empty.
    fn list_backups(&self) -> (r: AppResult<Vec<BackupRecord>>)
        ensures
            r matches Ok(v) && v@.len() == 0,
    {
        Ok(Vec::new())
    }

    /// Always refused.
    fn restore_backup(&self, id: &str) -> (r: AppResult<()>)
        ensures
            r matches Err(e) && backups_disabled(e),
    {
        Err(AppError::Unsupported(String::from_str("backups disabled")))
    }

    /// Nothing to remove.
    fn prune_old_backups(&self) -> (r: AppResult<usize>)
        ensures
            r == Ok::<usize, AppError>(0),
    {
        Ok(0)
    }
}

/// `std::path::PathBuf`, carried through unchanged.
#[verifier::external_type_specification]
#[verifier::external_body]
pub struct ExPathBuf(PathBuf);

/// Local-only backup service: copies the database file into a backup
/// directory. Retention keeps the most recent dailies, the newest backup
/// of each recent month and every manual backup.
pub struct LocalBackupService {
    db_path: PathBuf,
    backup_dir: PathBuf,
    /// Dailies to retain.
    daily_retain: usize,
    /// Months to retain.
    monthly_retain: usize,
}

impl LocalBackupService {
    /// How many dailies the retention keeps.
    pub closed spec fn spec_daily_retain(&self) -> usize {
        self.daily_retain
    }

    /// How many months the retention keeps.
    pub closed spec fn spec_monthly_retain(&self) -> usize {
        self.monthly_retain
    }

    /// The database file being backed up.
    pub closed spec fn spec_db_path(&self) -> PathBuf {
        self.db_path
    }

    /// The directory the backups go to.
    pub closed spec fn spec_backup_dir(&self) -> PathBuf {
        self.backup_dir
    }

    /// A service over the database at `db_path`, writing into `backup_dir`:
    /// seven dailies and six months retained.
    pub fn new(db_path: PathBuf, backup_dir: PathBuf) -> (r: Self)
        ensures
            r.spec_db_path() == db_path,
            r.spec_backup_dir() == backup_dir,
            r.spec_daily_retain() == 7,
            r.spec_monthly_retain() == 6,
    {
        LocalBackupService { db_path, backup_dir, daily_retain: 7, monthly_retain: 6 }
    }

    /// The same service with another retention.
    pub fn with_retention(self, daily: usize, monthly: usize) -> (r: Self)
        ensures
            r.spec_db_path() == self.spec_db_path(),
            r.spec_backup_dir() == self.spec_backup_dir(),
            r.spec_daily_retain() == daily,
            r.spec_monthly_retain() == monthly,
    {
        let mut s = self;
        s.daily_retain = daily;
        s.monthly_retain = monthly;
        s
    }

    /// Dailies retained.
    pub fn daily_retain(&self) -> (r: usize)
        ensures
            r == self.spec_daily_retain(),
    {
        self.daily_retain
    }

    /// Months retained.
    pub fn monthly_retain(&self) -> (r: usize)
        ensures
            r == self.spec_monthly_retain(),
    {
        self.monthly_retain
    }

    /// The database file being backed up.
    pub fn db_path(&self) -> (r: &PathBuf)
        ensures
            *r == self.spec_db_path(),
    {
        &self.db_path
    }

    /// The directory the backups go to.
    pub fn backup_dir(&self) -> (r: &PathBuf)
        ensures
            *r == self.spec_backup_dir(),
    {
        &self.backup_dir
    }

    /// The id of a backup of `kind` written at `created_at`: the local
    /// time stamp, a hyphen and the kind.
    pub fn build_filename(&self, kind: BackupKind, created_at: i64) -> (r: String)
        ensures
            exists|stamp: Seq<char>|
                #![trigger local_ymd_hms_rendering(created_at, stamp)]
                local_ymd_hms_rendering(created_at, stamp) && r@ == stamp + "-"@ + kind_suffix(kind),
            ends_with(r@, "-"@ + kind_suffix(kind)),
    {
        let stamp = local_ymd_hms_stamp(created_at);
        let r = backup_file_id(stamp.as_str(), kind);
        proof {
            let t = "-"@ + kind_suffix(kind);
            assert(r@.subrange(r@.len() - t.len(), r@.len() as int) =~= t);
        }
        r
    }
}

} // verus!
