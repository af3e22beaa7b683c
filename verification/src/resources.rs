//! The application's directory layout, computed from one root (by default
//! `~/.draffity`): where the voice binaries and models, media, backups,
//! logs, crash reports, user templates and the database live, and what a
//! one-time migration from an older data directory copies. Paths are text
//! joined with the host's separator; creating directories and copying
//! files is the caller's.
use vstd::prelude::*;
use vstd::string::*;

use crate::text::{chars_of, push_char};

verus! {

/// Whether `c` separates path components on a host whose main separator
/// is `sep` (`/` always does).
pub open spec fn is_separator(c: char, sep: char) -> bool {
    c == '/' || c == sep
}

/// `base` joined with `part` as `Path::join` does on a host whose main
/// separator is `sep`: a `part` starting with a separator replaces `base`,
/// an empty `base` gives `part`, and `sep` goes between them unless `base`
/// already ends with a separator.
pub open spec fn join_path(base: Seq<char>, part: Seq<char>, sep: char) -> Seq<char> {
    if part.len() > 0 && is_separator(part[0], sep) {
        part
    } else if base.len() == 0 {
        part
    } else if is_separator(base.last(), sep) {
        base + part
    } else {
        base + seq![sep] + part
    }
}

/// Join a path and a part with the separator `sep` (see `join_path`).
pub fn join(base: &str, part: &str, sep: char) -> (r: String)
    ensures
        r@ == join_path(base@, part@, sep),
{
    let b = chars_of(base);
    let p = chars_of(part);
    if p.len() > 0 && (p[0] == '/' || p[0] == sep) {
        return String::from_str(part);
    }
    if b.len() == 0 {
        return String::from_str(part);
    }
    let mut s = String::from_str(base);
    let last = b[b.len() - 1];
    if last != '/' && last != sep {
        push_char(&mut s, sep);
    }
    s.append(part);
    s
}

/// `std::path::MAIN_SEPARATOR`: `\` on Windows, `/` elsewhere.
#[verifier::external_body]
fn main_separator() -> (r: char)
    ensures
        r == '/' || r == '\\',
{
    std::path::MAIN_SEPARATOR
}

/// The host's main path separator: `\` on Windows, `/` elsewhere.
pub fn host_separator() -> (r: char)
    ensures
        r == '/' || r == '\\',
{
    main_separator()
}

/// The executable name of `stem` on a host whose separator is `sep`.
pub open spec fn exe_file(stem: Seq<char>, sep: char) -> Seq<char> {
    if sep == '\\' {
        stem + ".exe"@
    } else {
        stem
    }
}

/// The file name of an executable on a host whose separator is `sep`:
/// `.exe` appended on Windows (separator `\`), the stem itself elsewhere.
pub fn exe_name_for(stem: &str, sep: char) -> (r: String)
    ensures
        r@ == exe_file(stem@, sep),
{
    let mut s = String::from_str(stem);
    if sep == '\\' {
        s.append(".exe");
    }
    s
}

/// The file name of an executable on this host (see `exe_name_for`).
pub fn exe_name(stem: &str) -> (r: String)
    ensures
        r@ == stem@ || r@ == stem@ + ".exe"@,
{
    exe_name_for(stem, host_separator())
}

/// The root used when the home directory is known: `<home>/.draffity`
/// joined with `sep`; `.draffity` (relative) otherwise.
pub fn default_root(home_dir: Option<String>, sep: char) -> (r: String)
    ensures
        r@ == match home_dir {
            Some(h) => join_path(h@, ".draffity"@, sep),
            None => ".draffity"@,
        },
{
    match home_dir {
        Some(h) => join(h.as_str(), ".draffity", sep),
        None => String::from_str(".draffity"),
    }
}

/// The root after reading `config.json`: a configured, non-empty root wins
/// over the default.
pub fn configured_root(default: String, configured: Option<String>) -> (r: String)
    ensures
        r@ == match configured {
            Some(c) => if c@.len() > 0 {
                c@
            } else {
                default@
            },
            None => default@,
        },
{
    match configured {
        Some(c) => {
            if c.as_str().unicode_len() > 0 {
                c
            } else {
                default
            }
        },
        None => default,
    }
}

/// Whether the one-time migration should copy anything: not when it ran
/// before (its marker exists) nor when the new home already has a database.
pub fn migration_due(marker_exists: bool, db_exists: bool) -> (r: bool)
    ensures
        r == (!marker_exists && !db_exists),
{
    !marker_exists && !db_exists
}

/// Central access point for the application's directories.
#[derive(Debug, Clone)]
pub struct DraffityHome {
    root: String,
    sep: char,
}

impl DraffityHome {
    /// The root directory.
    pub closed spec fn root_view(&self) -> Seq<char> {
        self.root@
    }

    /// The separator paths are joined with: the host's.
    pub closed spec fn sep_view(&self) -> char {
        self.sep
    }

    /// `<root>/voice`.
    pub open spec fn voice_view(&self) -> Seq<char> {
        join_path(self.root_view(), "voice"@, self.sep_view())
    }

    /// `<root>/voice/bin`.
    pub open spec fn voice_bin_view(&self) -> Seq<char> {
        join_path(self.voice_view(), "bin"@, self.sep_view())
    }

    /// `<root>/voice/models`.
    pub open spec fn models_view(&self) -> Seq<char> {
        join_path(self.voice_view(), "models"@, self.sep_view())
    }

    /// `<root>/voice/voices`.
    pub open spec fn voices_view(&self) -> Seq<char> {
        join_path(self.voice_view(), "voices"@, self.sep_view())
    }

    /// A home rooted at `root`, joining paths with the host's separator.
    pub fn with_root(root: String) -> (r: Self)
        ensures
            r.root_view() == root@,
            r.sep_view() == '/' || r.sep_view() == '\\',
    {
        DraffityHome { root, sep: host_separator() }
    }

    /// The separator paths are joined with.
    pub fn separator(&self) -> (r: char)
        ensures
            r == self.sep_view(),
    {
        self.sep
    }

    /// The root directory.
    pub fn root(&self) -> (r: &str)
        ensures
            r@ == self.root_view(),
    {
        self.root.as_str()
    }

    /// Move the home to another root.
    pub fn set_root(&mut self, root: String)
        ensures
            final(self).root_view() == root@,
            final(self).sep_view() == old(self).sep_view(),
    {
        self.root = root;
    }

    /// `<root>/voice`.
    pub fn voice_dir(&self) -> (r: String)
        ensures
            r@ == self.voice_view(),
    {
        join(self.root.as_str(), "voice", self.sep)
    }

    fn voice_bin_dir(&self) -> (r: String)
        ensures
            r@ == self.voice_bin_view(),
    {
        let v = self.voice_dir();
        join(v.as_str(), "bin", self.sep)
    }

    /// The speech-recognition binary: `<root>/voice/bin/whisper` (with
    /// `.exe` on Windows).
    pub fn bin_dir(&self) -> (r: String)
        ensures
            r@ == join_path(self.voice_bin_view(), exe_file("whisper"@, self.sep_view()), self.sep_view()),
    {
        let b = self.voice_bin_dir();
        let name = exe_name_for("whisper", self.sep);
        join(b.as_str(), name.as_str(), self.sep)
    }

    /// The speech-synthesis binary: `<root>/voice/bin/piper` (with `.exe`
    /// on Windows).
    pub fn piper_bin_path(&self) -> (r: String)
        ensures
            r@ == join_path(self.voice_bin_view(), exe_file("piper"@, self.sep_view()), self.sep_view()),
    {
        let b = self.voice_bin_dir();
        let name = exe_name_for("piper", self.sep);
        join(b.as_str(), name.as_str(), self.sep)
    }

    /// `<root>/voice/models`.
    pub fn models_dir(&self) -> (r: String)
        ensures
            r@ == self.models_view(),
    {
        let v = self.voice_dir();
        join(v.as_str(), "models", self.sep)
    }

    /// A model file under the models directory.
    pub fn model_path(&self, filename: &str) -> (r: String)
        ensures
            r@ == join_path(self.models_view(), filename@, self.sep_view()),
    {
        let m = self.models_dir();
        join(m.as_str(), filename, self.sep)
    }

    /// `<root>/voice/voices`.
    pub fn voices_dir(&self) -> (r: String)
        ensures
            r@ == self.voices_view(),
    {
        let v = self.voice_dir();
        join(v.as_str(), "voices", self.sep)
    }

    /// A voice file under the voices directory.
    pub fn voice_file_path(&self, filename: &str) -> (r: String)
        ensures
            r@ == join_path(self.voices_view(), filename@, self.sep_view()),
    {
        let v = self.voices_dir();
        join(v.as_str(), filename, self.sep)
    }

    /// `<root>/voice/tmp`.
    pub fn tmp_dir(&self) -> (r: String)
        ensures
            r@ == join_path(self.voice_view(), "tmp"@, self.sep_view()),
    {
        let v = self.voice_dir();
        join(v.as_str(), "tmp", self.sep)
    }

    /// `<root>/media`.
    pub fn media_dir(&self) -> (r: String)
        ensures
            r@ == join_path(self.root_view(), "media"@, self.sep_view()),
    {
        join(self.root.as_str(), "media", self.sep)
    }

    /// `<root>/backups`.
    pub fn backups_dir(&self) -> (r: String)
        ensures
            r@ == join_path(self.root_view(), "backups"@, self.sep_view()),
    {
        join(self.root.as_str(), "backups", self.sep)
    }

    /// `<root>/logs`.
    pub fn logs_dir(&self) -> (r: String)
        ensures
            r@ == join_path(self.root_view(), "logs"@, self.sep_view()),
    {
        join(self.root.as_str(), "logs", self.sep)
    }

    /// `<root>/crash-reports`.
    pub fn crash_reports_dir(&self) -> (r: String)
        ensures
            r@ == join_path(self.root_view(), "crash-reports"@, self.sep_view()),
    {
        join(self.root.as_str(), "crash-reports", self.sep)
    }

    /// `<root>/templates`, the parent of the user templates.
    pub fn templates_root(&self) -> (r: String)
        ensures
            r@ == join_path(self.root_view(), "templates"@, self.sep_view()),
    {
        join(self.root.as_str(), "templates", self.sep)
    }

    /// `<root>/templates/user`.
    pub fn templates_dir(&self) -> (r: String)
        ensures
            r@ == join_path(join_path(self.root_view(), "templates"@, self.sep_view()), "user"@, self.sep_view()),
    {
        let t = self.templates_root();
        join(t.as_str(), "user", self.sep)
    }

    /// `<root>/draffity.db`.
    pub fn db_path(&self) -> (r: String)
        ensures
            r@ == join_path(self.root_view(), "draffity.db"@, self.sep_view()),
    {
        join(self.root.as_str(), "draffity.db", self.sep)
    }

    /// `<root>/config.json`.
    pub fn config_path(&self) -> (r: String)
        ensures
            r@ == join_path(self.root_view(), "config.json"@, self.sep_view()),
    {
        join(self.root.as_str(), "config.json", self.sep)
    }

    /// `<root>/.migrated-from`, written once the migration has run.
    pub fn migration_marker(&self) -> (r: String)
        ensures
            r@ == join_path(self.root_view(), ".migrated-from"@, self.sep_view()),
    {
        join(self.root.as_str(), ".migrated-from", self.sep)
    }

    /// The directories created at startup, in order: voice, models,
    /// voices, tmp, media, backups, logs, crash reports, templates.
    pub fn dirs_to_create(&self) -> (r: Vec<String>)
        ensures
            r@.len() == 9,
            r@[0]@ == self.voice_view(),
            r@[1]@ == self.models_view(),
            r@[2]@ == self.voices_view(),
            r@[3]@ == join_path(self.voice_view(), "tmp"@, self.sep_view()),
            r@[4]@ == join_path(self.root_view(), "media"@, self.sep_view()),
            r@[5]@ == join_path(self.root_view(), "backups"@, self.sep_view()),
            r@[6]@ == join_path(self.root_view(), "logs"@, self.sep_view()),
            r@[7]@ == join_path(self.root_view(), "crash-reports"@, self.sep_view()),
            r@[8]@ == join_path(self.root_view(), "templates"@, self.sep_view()),
    {
        let mut v: Vec<String> = Vec::new();
        v.push(self.voice_dir());
        v.push(self.models_dir());
        v.push(self.voices_dir());
        v.push(self.tmp_dir());
        v.push(self.media_dir());
        v.push(self.backups_dir());
        v.push(self.logs_dir());
        v.push(self.crash_reports_dir());
        v.push(self.templates_root());
        v
    }

    /// What the migration from `old` copies, as (source, destination)
    /// pairs in order: the voice, media, backups, crash-reports, logs and
    /// templates directories and the database file.
    pub fn migration_pairs(&self, old: &str) -> (r: Vec<(String, String)>)
        ensures
            r@.len() == 7,
            r@[0].0@ == join_path(old@, "voice"@, self.sep_view()) && r@[0].1@ == self.voice_view(),
            r@[1].0@ == join_path(old@, "media"@, self.sep_view()) && r@[1].1@ == join_path(self.root_view(), "media"@, self.sep_view()),
            r@[2].0@ == join_path(old@, "backups"@, self.sep_view()) && r@[2].1@ == join_path(
                self.root_view(),
                "backups"@, self.sep_view()),
            r@[3].0@ == join_path(old@, "crash-reports"@, self.sep_view()) && r@[3].1@ == join_path(
                self.root_view(),
                "crash-reports"@, self.sep_view()),
            r@[4].0@ == join_path(old@, "logs"@, self.sep_view()) && r@[4].1@ == join_path(self.root_view(), "logs"@, self.sep_view()),
            r@[5].0@ == join_path(old@, "templates"@, self.sep_view()) && r@[5].1@ == join_path(
                self.root_view(),
                "templates"@, self.sep_view()),
            r@[6].0@ == join_path(old@, "draffity.db"@, self.sep_view()) && r@[6].1@ == join_path(
                self.root_view(),
                "draffity.db"@, self.sep_view()),
    {
        let mut v: Vec<(String, String)> = Vec::new();
        v.push((join(old, "voice", self.sep), self.voice_dir()));
        v.push((join(old, "media", self.sep), self.media_dir()));
        v.push((join(old, "backups", self.sep), self.backups_dir()));
        v.push((join(old, "crash-reports", self.sep), self.crash_reports_dir()));
        v.push((join(old, "logs", self.sep), self.logs_dir()));
        v.push((join(old, "templates", self.sep), self.templates_root()));
        v.push((join(old, "draffity.db", self.sep), self.db_path()));
        v
    }
}

} // verus!
