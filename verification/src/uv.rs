//! Reading uv's output while it syncs the backend's dependencies: which lines
//! report progress, which package a download line names, and the splash
//! update that each line gives.

use vstd::prelude::*;
use vstd::slice::slice_subrange;
use crate::splash::{
    dependency_wait_update, download_progress, loading_view, uv_download_progress, waiting_progress,
    waiting_progress_fits, SplashUpdate, SplashView,
};
use crate::text::{
    chars_of, find, has_prefix, is_whitespace, lemma_first_occurrence_is, lemma_lowercase_idempotent,
    lowercase_ascii, occurs_at, same_chars, split_once, starts_with, string_from, to_ascii_lowercase,
    trim, trim_bounds, trim_end, trim_start, views,
};

verus! {

/// `line` starts with one of the prefixes of uv's progress and diagnostic lines.
pub open spec fn uv_progress_line(line: Seq<char>) -> bool {
    ||| starts_with(line, "Resolved "@)
    ||| starts_with(line, "Downloading "@)
    ||| starts_with(line, "Downloaded "@)
    ||| starts_with(line, "Prepared "@)
    ||| starts_with(line, "Installed "@)
    ||| starts_with(line, "Audited "@)
    ||| starts_with(line, "warning: "@)
    ||| starts_with(line, "hint: "@)
    ||| starts_with(line, "note: "@)
}

fn starts_with_text(cs: &[char], prefix: &str) -> (b: bool)
    ensures
        b == starts_with(cs@, prefix@),
{
    let p = chars_of(prefix);
    has_prefix(cs, p.as_slice())
}

fn progress_chars(cs: &[char]) -> (b: bool)
    ensures
        b == uv_progress_line(cs@),
{
    starts_with_text(cs, "Resolved ") || starts_with_text(cs, "Downloading ") || starts_with_text(
        cs,
        "Downloaded ",
    ) || starts_with_text(cs, "Prepared ") || starts_with_text(cs, "Installed ")
        || starts_with_text(cs, "Audited ") || starts_with_text(cs, "warning: ")
        || starts_with_text(cs, "hint: ") || starts_with_text(cs, "note: ")
}

/// Whether uv wrote `line` to report progress or a diagnostic, not an error.
pub fn is_uv_progress_line(line: &str) -> (b: bool)
    ensures
        b == uv_progress_line(line@),
{
    let cs = chars_of(line);
    progress_chars(cs.as_slice())
}

/// The text before the first occurrence of `pat` in `s`, if it occurs.
pub open spec fn before(s: Seq<char>, pat: Seq<char>) -> Option<Seq<char>> {
    match split_once(s, pat) {
        Some((head, _)) => Some(head),
        None => None,
    }
}

/// The part of the text after `Downloading ` that names the package: up to the
/// first `==`, else the first ` @ `, else the first ` (`, else all of it.
pub open spec fn name_part(rest: Seq<char>) -> Seq<char> {
    match before(rest, "=="@) {
        Some(n) => n,
        None => match before(rest, " @ "@) {
            Some(n) => n,
            None => match before(rest, " ("@) {
                Some(n) => n,
                None => rest,
            },
        },
    }
}

/// The package that a `Downloading <name>...` line of uv names: the name part
/// of the text after `Downloading `, trimmed and in ASCII lower case, and
/// absent when empty.
pub open spec fn uv_package_name(line: Seq<char>) -> Option<Seq<char>> {
    if !starts_with(line, "Downloading "@) {
        None
    } else {
        let name = to_ascii_lowercase(trim(name_part(line.skip("Downloading "@.len() as int))));
        if name.len() == 0 {
            None
        } else {
            Some(name)
        }
    }
}

fn head_before(cs: &[char], pat: &str) -> (r: Option<usize>)
    ensures
        match r {
            Some(i) => i <= cs@.len() && before(cs@, pat@) == Some(cs@.take(i as int)),
            None => before(cs@, pat@) is None,
        },
{
    let p = chars_of(pat);
    find(cs, p.as_slice())
}

fn package_name_chars(line: &[char]) -> (r: Option<Vec<char>>)
    ensures
        match r {
            Some(n) => uv_package_name(line@) == Some(n@),
            None => uv_package_name(line@) is None,
        },
{
    let prefix = chars_of("Downloading ");
    if !has_prefix(line, prefix.as_slice()) {
        return None;
    }
    let rest = slice_subrange(line, prefix.len(), line.len());
    assert(rest@ =~= line@.skip("Downloading "@.len() as int));
    let end = match head_before(rest, "==") {
        Some(i) => i,
        None => match head_before(rest, " @ ") {
            Some(i) => i,
            None => match head_before(rest, " (") {
                Some(i) => i,
                None => rest.len(),
            },
        },
    };
    let name = slice_subrange(rest, 0, end);
    assert(rest@.take(rest@.len() as int) =~= rest@);
    assert(name@ =~= name_part(rest@));
    let (a, b) = trim_bounds(name);
    let trimmed = slice_subrange(name, a, b);
    let lower = lowercase_ascii(trimmed);
    if lower.len() == 0 {
        None
    } else {
        Some(lower)
    }
}

/// The package that a uv `Downloading` line names (see `uv_package_name`).
pub fn extract_uv_package_name(line: &str) -> (r: Option<String>)
    ensures
        match r {
            Some(n) => uv_package_name(line@) == Some(n@),
            None => uv_package_name(line@) is None,
        },
{
    let cs = chars_of(line);
    match package_name_chars(cs.as_slice()) {
        Some(n) => Some(string_from(n.as_slice())),
        None => None,
    }
}

/// The distinct package names seen in a sync, as a `HashSet<String>` holds them.
pub struct SeenPackages {
    names: Vec<Vec<char>>,
}

impl View for SeenPackages {
    type V = Set<Seq<char>>;

    closed spec fn view(&self) -> Set<Seq<char>> {
        views(self.names@).to_set()
    }
}

impl SeenPackages {
    /// Each name is held once.
    pub closed spec fn wf(&self) -> bool {
        views(self.names@).no_duplicates()
    }

    pub fn new() -> (r: Self)
        ensures
            r.wf(),
            r@ == Set::<Seq<char>>::empty(),
    {
        let r = SeenPackages { names: Vec::new() };
        assert(views(r.names@) =~= Seq::<Seq<char>>::empty());
        assert(r@ =~= Set::<Seq<char>>::empty());
        r
    }

    /// The number of distinct names seen.
    pub fn len(&self) -> (n: usize)
        requires
            self.wf(),
        ensures
            n == self@.len(),
            self@.finite(),
    {
        proof {
            views(self.names@).unique_seq_to_set();
            vstd::seq_lib::seq_to_set_is_finite(views(self.names@));
        }
        self.names.len()
    }

    fn holds(&self, name: &[char]) -> (r: bool)
        ensures
            r == views(self.names@).contains(name@),
    {
        let n = self.names.len();
        for i in 0..n
            invariant
                n == self.names@.len(),
                forall|j: int| 0 <= j < i ==> self.names@[j]@ != name@,
        {
            if same_chars(self.names[i].as_slice(), name) {
                assert(views(self.names@)[i as int] == name@);
                return true;
            }
        }
        assert forall|j: int| 0 <= j < n implies views(self.names@)[j] != name@ by {
            assert(views(self.names@)[j] == self.names@[j]@);
        }
        false
    }

    /// Adds a name.
    pub fn insert(&mut self, name: Vec<char>)
        requires
            old(self).wf(),
        ensures
            final(self).wf(),
            final(self)@ == old(self)@.insert(name@),
    {
        if self.holds(name.as_slice()) {
            assert(self@.insert(name@) =~= self@);
            return;
        }
        let ghost before = views(self.names@);
        self.names.push(name);
        assert(views(self.names@) =~= before.push(name@));
        proof {
            before.lemma_push_to_set_commute(name@);
            assert forall|i: int, j: int|
                0 <= i < before.len() + 1 && 0 <= j < before.len() + 1 && i != j implies
                views(self.names@)[i] != views(self.names@)[j] by {
                if i == before.len() as int {
                    assert(before.contains(before[j]));
                } else if j == before.len() as int {
                    assert(before.contains(before[i]));
                }
            }
        }
    }
}

/// A package name is never empty and is in lower case.
pub proof fn lemma_package_name_is_lowercase(line: Seq<char>)
    ensures
        uv_package_name(line) matches Some(n) ==> n.len() > 0 && to_ascii_lowercase(n) == n,
{
    if let Some(n) = uv_package_name(line) {
        let name = name_part(line.skip("Downloading "@.len() as int));
        lemma_lowercase_idempotent(trim(name));
    }
}

proof fn lemma_plain_name_is_kept(n: Seq<char>)
    requires
        n.len() > 0,
        forall|i: int| 0 <= i < n.len() ==> !is_whitespace(n[i]) && !('A' <= n[i] && n[i] <= 'Z'),
    ensures
        to_ascii_lowercase(trim(n)) == n,
{
    assert(trim_start(n) == n);
    assert(trim_end(n) == n);
    assert(to_ascii_lowercase(n) =~= n);
}

proof fn lemma_package_from_name_part(rest: Seq<char>, n: Seq<char>)
    requires
        name_part(rest) == n,
        n.len() > 0,
        forall|i: int| 0 <= i < n.len() ==> !is_whitespace(n[i]) && !('A' <= n[i] && n[i] <= 'Z'),
    ensures
        uv_package_name("Downloading "@ + rest) == Some(n),
{
    let d = "Downloading "@;
    let line = d + rest;
    assert(line.take(d.len() as int) =~= d);
    assert(line.skip(d.len() as int) =~= rest);
    lemma_plain_name_is_kept(n);
}

proof fn lemma_name_part_before_version(n: Seq<char>, tail: Seq<char>)
    requires
        forall|i: int| 0 <= i < n.len() ==> n[i] != '=',
    ensures
        name_part(n + "=="@ + tail) == n,
{
    reveal_strlit("==");
    let rest = n + "=="@ + tail;
    let k = n.len() as int;
    assert(rest.subrange(k, k + 2) =~= "=="@);
    assert forall|j: int| 0 <= j < k implies !occurs_at(rest, "=="@, j) by {
        assert(rest.subrange(j, j + 2)[0] == n[j]);
    }
    lemma_first_occurrence_is(rest, "=="@, k);
    assert(rest.take(k) =~= n);
}

proof fn lemma_no_equals_sign(n: Seq<char>, tail: Seq<char>)
    requires
        forall|i: int| 0 <= i < n.len() ==> n[i] != '=',
        forall|i: int| 0 <= i < tail.len() ==> tail[i] != '=',
    ensures
        before(n + " ("@ + tail, "=="@) is None,
{
    reveal_strlit("==");
    reveal_strlit(" (");
    let rest = n + " ("@ + tail;
    let k = n.len() as int;
    assert forall|j: int| !occurs_at(rest, "=="@, j) by {
        if occurs_at(rest, "=="@, j) {
            assert(rest.subrange(j, j + 2)[0] == rest[j]);
            if j < k {
                assert(rest[j] == n[j]);
            } else if j >= k + 2 {
                assert(rest[j] == tail[j - k - 2]);
            }
        }
    }
}

proof fn lemma_no_url(n: Seq<char>, tail: Seq<char>)
    requires
        forall|i: int| 0 <= i < n.len() ==> !is_whitespace(n[i]),
        forall|i: int| 0 <= i < tail.len() ==> tail[i] != '@',
    ensures
        before(n + " ("@ + tail, " @ "@) is None,
{
    reveal_strlit(" @ ");
    reveal_strlit(" (");
    let rest = n + " ("@ + tail;
    let k = n.len() as int;
    assert forall|j: int| !occurs_at(rest, " @ "@, j) by {
        if occurs_at(rest, " @ "@, j) {
            assert(rest.subrange(j, j + 3)[0] == rest[j]);
            assert(rest.subrange(j, j + 3)[1] == rest[j + 1]);
            if j + 1 >= k + 2 {
                assert(rest[j + 1] == tail[j + 1 - k - 2]);
            } else if j < k {
                assert(rest[j] == n[j]);
            }
        }
    }
}

proof fn lemma_name_part_before_size(n: Seq<char>, tail: Seq<char>)
    requires
        forall|i: int| 0 <= i < n.len() ==> !is_whitespace(n[i]) && n[i] != '=',
        forall|i: int| 0 <= i < tail.len() ==> tail[i] != '=' && tail[i] != '@',
    ensures
        name_part(n + " ("@ + tail) == n,
{
    reveal_strlit(" (");
    lemma_no_equals_sign(n, tail);
    lemma_no_url(n, tail);
    let rest = n + " ("@ + tail;
    let k = n.len() as int;
    assert(rest.subrange(k, k + 2) =~= " ("@);
    assert forall|j: int| 0 <= j < k implies !occurs_at(rest, " ("@, j) by {
        assert(rest.subrange(j, j + 2)[0] == n[j]);
    }
    lemma_first_occurrence_is(rest, " ("@, k);
    assert(rest.take(k) =~= n);
}

/// The package of a `Downloading <name> (<size>)` line is the whole name before
/// ` (`, hyphens and dots included, whatever the size says (when it holds no `=`
/// or `@`): for a name without white space, `=` or capital letters.
pub proof fn lemma_package_name_before_size(n: Seq<char>, tail: Seq<char>)
    requires
        n.len() > 0,
        forall|i: int|
            0 <= i < n.len() ==> !is_whitespace(n[i]) && n[i] != '=' && !('A' <= n[i] && n[i]
                <= 'Z'),
        forall|i: int| 0 <= i < tail.len() ==> tail[i] != '=' && tail[i] != '@',
    ensures
        uv_package_name("Downloading "@ + n + " ("@ + tail) == Some(n),
{
    let rest = n + " ("@ + tail;
    lemma_name_part_before_size(n, tail);
    lemma_package_from_name_part(rest, n);
    assert("Downloading "@ + n + " ("@ + tail =~= "Downloading "@ + rest);
}

/// The package of a `Downloading <name>==<version>` line is the whole name
/// before `==`: for a name without white space, `=` or capital letters.
pub proof fn lemma_package_name_before_version(n: Seq<char>, tail: Seq<char>)
    requires
        n.len() > 0,
        forall|i: int|
            0 <= i < n.len() ==> !is_whitespace(n[i]) && n[i] != '=' && !('A' <= n[i] && n[i]
                <= 'Z'),
    ensures
        uv_package_name("Downloading "@ + n + "=="@ + tail) == Some(n),
{
    let rest = n + "=="@ + tail;
    lemma_name_part_before_version(n, tail);
    lemma_package_from_name_part(rest, n);
    assert("Downloading "@ + n + "=="@ + tail =~= "Downloading "@ + rest);
}

/// The seen names after the line `line`: a `Downloading` line adds the package
/// it names.
pub open spec fn seen_after(line: Seq<char>, seen: Set<Seq<char>>) -> Set<Seq<char>> {
    let t = trim(line);
    if t.len() == 0 || starts_with(t, "Resolved "@) || !starts_with(t, "Downloading "@) {
        seen
    } else {
        match uv_package_name(t) {
            Some(p) => seen.insert(p),
            None => seen,
        }
    }
}

/// A line counts a package once: the same line again adds nothing.
pub proof fn lemma_seen_after_idempotent(line: Seq<char>, seen: Set<Seq<char>>)
    ensures
        seen_after(line, seen_after(line, seen)) == seen_after(line, seen),
{
    if let Some(p) = uv_package_name(trim(line)) {
        assert(seen.insert(p).insert(p) =~= seen.insert(p));
    }
}

/// The splash update for a line of uv's output (trimmed): `Resolved` gives 70,
/// `Downloading` the download progress of the packages seen so far, `Prepared` 84,
/// `Installed` 88, `+ ` and `Audited` 90; any other line gives none.
pub open spec fn output_update(
    line: Seq<char>,
    seen: Set<Seq<char>>,
    subtitle: Seq<char>,
    title: Seq<char>,
) -> Option<SplashView> {
    let t = trim(line);
    if t.len() == 0 {
        None
    } else if starts_with(t, "Resolved "@) {
        Some(loading_view(title, t, 70, subtitle))
    } else if starts_with(t, "Downloading "@) {
        Some(loading_view(title, t, download_progress(seen_after(line, seen).len()), subtitle))
    } else if starts_with(t, "Prepared "@) {
        Some(loading_view(title, t, 84, subtitle))
    } else if starts_with(t, "Installed "@) {
        Some(loading_view(title, t, 88, subtitle))
    } else if starts_with(t, "+ "@) || starts_with(t, "Audited "@) {
        Some(loading_view(title, t, 90, subtitle))
    } else {
        None
    }
}

/// The splash update for a line of uv's output (see `output_update`), recording
/// the package that a `Downloading` line names.
pub fn splash_update_for_dependency_output(
    line: &str,
    seen_packages: &mut SeenPackages,
    subtitle: &str,
    deps_title: &str,
) -> (r: Option<SplashUpdate>)
    requires
        old(seen_packages).wf(),
    ensures
        final(seen_packages).wf(),
        final(seen_packages)@ == seen_after(line@, old(seen_packages)@),
        match r {
            Some(u) => output_update(line@, old(seen_packages)@, subtitle@, deps_title@) == Some(
                u@,
            ),
            None => output_update(line@, old(seen_packages)@, subtitle@, deps_title@) is None,
        },
{
    let all = chars_of(line);
    let (a, b) = trim_bounds(all.as_slice());
    let t = slice_subrange(all.as_slice(), a, b);
    if t.len() == 0 {
        return None;
    }
    let progress: u8 = if starts_with_text(t, "Resolved ") {
        70
    } else if starts_with_text(t, "Downloading ") {
        if let Some(pkg) = package_name_chars(t) {
            seen_packages.insert(pkg);
        }
        uv_download_progress(seen_packages.len())
    } else if starts_with_text(t, "Prepared ") {
        84
    } else if starts_with_text(t, "Installed ") {
        88
    } else if starts_with_text(t, "+ ") || starts_with_text(t, "Audited ") {
        90
    } else {
        return None;
    };
    let detail = string_from(t);
    Some(SplashUpdate::loading(deps_title.to_owned(), detail, progress, subtitle.to_owned()))
}

/// How a line of uv's output is logged.
#[derive(Clone, Copy, Debug, PartialEq, Eq, Structural)]
pub enum LogLevel {
    Info,
    Warn,
}

/// The state of a dependency sync while uv runs: the packages seen, the
/// progress shown, the seconds without output so far, and the last line that
/// uv wrote to stderr that was not a progress line.
pub struct DependencySync {
    seen: SeenPackages,
    progress: u8,
    quiet_secs: u16,
    last_err: String,
}

pub struct DependencySyncView {
    pub seen: Set<Seq<char>>,
    pub progress: u8,
    pub quiet_secs: u16,
    pub last_err: Seq<char>,
}

impl View for DependencySync {
    type V = DependencySyncView;

    closed spec fn view(&self) -> DependencySyncView {
        DependencySyncView {
            seen: self.seen@,
            progress: self.progress,
            quiet_secs: self.quiet_secs,
            last_err: self.last_err@,
        }
    }
}

/// The larger of two progress values.
pub open spec fn max_progress(a: u8, b: u8) -> u8 {
    if a < b {
        b
    } else {
        a
    }
}

impl DependencySync {
    /// The progress shown stays between 64, where a sync starts, and 90, the
    /// most that any line of uv gives.
    pub closed spec fn wf(&self) -> bool {
        &&& self.seen.wf()
        &&& 64 <= self.progress <= 90
    }

    /// A sync that has just started: no package seen, progress 64.
    pub fn new() -> (r: Self)
        ensures
            r.wf(),
            r@.seen == Set::<Seq<char>>::empty(),
            r@.progress == 64,
            r@.quiet_secs == 0,
            r@.last_err == Seq::<char>::empty(),
    {
        DependencySync {
            seen: SeenPackages::new(),
            progress: 64,
            quiet_secs: 0,
            last_err: String::new(),
        }
    }

    /// The progress shown last.
    pub fn progress(&self) -> (p: u8)
        ensures
            p == self@.progress,
    {
        self.progress
    }

    /// The seconds without output so far.
    pub fn quiet_secs(&self) -> (s: u16)
        ensures
            s == self@.quiet_secs,
    {
        self.quiet_secs
    }

    /// Takes a line that uv wrote (to stderr when `is_err`). Gives the splash
    /// update for it, never below the progress shown so far, and how to log it;
    /// a stderr line that is not a progress line is logged as a warning and kept
    /// as the last error.
    pub fn on_output(&mut self, is_err: bool, line: &str, subtitle: &str, deps_title: &str) -> (r: (
        Option<SplashUpdate>,
        LogLevel,
    ))
        requires
            old(self).wf(),
        ensures
            final(self).wf(),
            final(self)@.seen == seen_after(line@, old(self)@.seen),
            final(self)@.quiet_secs == old(self)@.quiet_secs,
            final(self)@.progress >= old(self)@.progress,
            64 <= final(self)@.progress <= 90,
            match r.0 {
                Some(u) => {
                    &&& output_update(line@, old(self)@.seen, subtitle@, deps_title@) matches Some(
                        v,
                    )
                    &&& u@ == (SplashView {
                        progress: max_progress(v.progress, old(self)@.progress),
                        ..v
                    })
                    &&& final(self)@.progress == u.progress
                },
                None => {
                    &&& output_update(line@, old(self)@.seen, subtitle@, deps_title@) is None
                    &&& final(self)@.progress == old(self)@.progress
                },
            },
            if is_err && !uv_progress_line(line@) {
                r.1 == LogLevel::Warn && final(self)@.last_err == line@
            } else {
                r.1 == LogLevel::Info && final(self)@.last_err == old(self)@.last_err
            },
    {
        let update = splash_update_for_dependency_output(line, &mut self.seen, subtitle, deps_title);
        let shown = match update {
            Some(u) => {
                let mut u = u;
                if u.progress < self.progress {
                    u.progress = self.progress;
                }
                self.progress = u.progress;
                Some(u)
            },
            None => None,
        };
        let level = if is_err {
            if is_uv_progress_line(line) {
                LogLevel::Info
            } else {
                self.last_err = line.to_owned();
                LogLevel::Warn
            }
        } else {
            LogLevel::Info
        };
        (shown, level)
    }

    /// Counts one more second without output (saturating) and gives the count.
    pub fn on_quiet_second(&mut self) -> (secs: u16)
        requires
            old(self).wf(),
        ensures
            final(self).wf(),
            secs == final(self)@.quiet_secs,
            secs == (if old(self)@.quiet_secs < u16::MAX {
                old(self)@.quiet_secs + 1
            } else {
                u16::MAX as int
            }),
            final(self)@.seen == old(self)@.seen,
            final(self)@.progress == old(self)@.progress,
            final(self)@.last_err == old(self)@.last_err,
    {
        self.quiet_secs = self.quiet_secs.saturating_add(1);
        self.quiet_secs
    }

    /// The update shown after a quiet second (see `dependency_wait_update`); its
    /// progress becomes the progress shown.
    pub fn wait_update(
        &mut self,
        title: String,
        subtitle: String,
        parsing: String,
        syncing: String,
    ) -> (r: SplashUpdate)
        requires
            old(self).wf(),
            waiting_progress_fits(old(self)@.quiet_secs),
        ensures
            final(self).wf(),
            r@ == loading_view(
                title@,
                if old(self)@.quiet_secs < 10 {
                    parsing@
                } else {
                    syncing@
                },
                waiting_progress(old(self)@.quiet_secs, old(self)@.progress),
                subtitle@,
            ),
            final(self)@.progress == r.progress,
            final(self)@.progress >= old(self)@.progress,
            64 <= final(self)@.progress <= 90,
            final(self)@.seen == old(self)@.seen,
            final(self)@.quiet_secs == old(self)@.quiet_secs,
            final(self)@.last_err == old(self)@.last_err,
    {
        let u = dependency_wait_update(self.quiet_secs, self.progress, title, subtitle, parsing, syncing);
        self.progress = u.progress;
        u
    }

    /// How the sync ended: success, or the last error line (the `fallback` text
    /// when uv wrote none).
    pub fn outcome(&self, succeeded: bool, fallback: String) -> (r: Result<(), String>)
        ensures
            succeeded ==> r is Ok,
            !succeeded ==> (r matches Err(e) && e@ == (if self@.last_err.len() == 0 {
                fallback@
            } else {
                self@.last_err
            })),
    {
        if succeeded {
            Ok(())
        } else if self.last_err.as_str().is_empty() {
            Err(fallback)
        } else {
            Err(self.last_err.clone())
        }
    }
}

} // verus!
