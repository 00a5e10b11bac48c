//! The splash screen's status updates and the arithmetic of their progress.

use vstd::prelude::*;

verus! {

/// What the splash screen shows: a subtitle, a title, a detail line, a progress
/// percentage and whether it reports a failure.
#[derive(Clone, Debug)]
pub struct SplashUpdate {
    pub subtitle: String,
    pub title: String,
    pub detail: String,
    pub progress: u8,
    pub is_error: bool,
}

/// The contents of a `SplashUpdate`.
pub struct SplashView {
    pub subtitle: Seq<char>,
    pub title: Seq<char>,
    pub detail: Seq<char>,
    pub progress: u8,
    pub is_error: bool,
}

impl View for SplashUpdate {
    type V = SplashView;

    open spec fn view(&self) -> SplashView {
        SplashView {
            subtitle: self.subtitle@,
            title: self.title@,
            detail: self.detail@,
            progress: self.progress,
            is_error: self.is_error,
        }
    }
}

/// `progress`, but no more than 100.
pub open spec fn capped(progress: u8) -> u8 {
    if progress < 100 {
        progress
    } else {
        100
    }
}

/// An update that reports work in progress.
pub open spec fn loading_view(
    title: Seq<char>,
    detail: Seq<char>,
    progress: u8,
    subtitle: Seq<char>,
) -> SplashView {
    SplashView { subtitle, title, detail, progress: capped(progress), is_error: false }
}

impl SplashUpdate {
    /// An update that reports work in progress, with the progress capped at 100.
    /// `subtitle` is the text that the splash shows while connecting.
    pub fn loading(title: String, detail: String, progress: u8, subtitle: String) -> (r: Self)
        ensures
            r@ == loading_view(title@, detail@, progress, subtitle@),
    {
        SplashUpdate {
            subtitle,
            title,
            detail,
            progress: if progress < 100 {
                progress
            } else {
                100
            },
            is_error: false,
        }
    }

    /// An update that reports a failure, with the progress capped at 100.
    /// `subtitle` is the text that the splash shows when the connection failed.
    pub fn error(title: String, detail: String, progress: u8, subtitle: String) -> (r: Self)
        ensures
            r@ == (SplashView {
                subtitle: subtitle@,
                title: title@,
                detail: detail@,
                progress: capped(progress),
                is_error: true,
            }),
    {
        SplashUpdate {
            subtitle,
            title,
            detail,
            progress: if progress < 100 {
                progress
            } else {
                100
            },
            is_error: true,
        }
    }

    /// The same update with another subtitle.
    pub fn with_subtitle(self, subtitle: String) -> (r: Self)
        ensures
            r@ == (SplashView { subtitle: subtitle@, ..self@ }),
    {
        let mut s = self;
        s.subtitle = subtitle;
        s
    }
}

/// The progress shown while uv downloads packages: 72 plus one for each distinct
/// package seen, up to 82.
pub open spec fn download_progress(downloaded: nat) -> u8 {
    if downloaded < 10 {
        (72 + downloaded) as u8
    } else {
        82
    }
}

/// More packages never show less progress.
pub proof fn lemma_download_progress_monotone(a: nat, b: nat)
    requires
        a <= b,
    ensures
        download_progress(a) <= download_progress(b),
{
}

pub fn uv_download_progress(downloaded: usize) -> (r: u8)
    ensures
        r == download_progress(downloaded as nat),
        72 <= r <= 82,
{
    let d: u8 = if downloaded < 10 {
        downloaded as u8
    } else {
        10
    };
    let p: u8 = 72 + d;
    if p < 82 {
        p
    } else {
        82
    }
}

/// `percentage` (capped at 100) of the way from `start` to `end`, rounded down.
pub open spec fn scaled(percentage: u8, start: u8, end: u8) -> int {
    let p = if percentage < 100 {
        percentage as int
    } else {
        100
    };
    start + (p * (end - start)) / 100
}

pub fn scale_progress(percentage: u8, start: u8, end: u8) -> (r: u8)
    requires
        start <= end,
    ensures
        r == scaled(percentage, start, end),
        start <= r <= end,
{
    let p: u16 = if percentage < 100 {
        percentage as u16
    } else {
        100
    };
    let span: u16 = end as u16 - start as u16;
    assert(p * span <= 100 * span) by (nonlinear_arith)
        requires
            p <= 100,
    ;
    assert((p * span) / 100 <= span) by (nonlinear_arith)
        requires
            p * span <= 100 * span,
    ;
    let scaled_part: u16 = (p * span) / 100;
    (start as u16 + scaled_part) as u8
}

/// The progress shown after `elapsed_secs` quiet seconds of a dependency sync:
/// 64 plus a quarter of the seconds, the latter taken modulo 256 as a `u8`
/// holds it, up to 89; never less than `current`.
pub open spec fn waiting_progress(elapsed_secs: u16, current: u8) -> u8 {
    let quarter = ((elapsed_secs / 4) as u8) as int;
    let synthetic = if 64 + quarter < 89 {
        64 + quarter
    } else {
        89
    };
    if current < synthetic {
        synthetic as u8
    } else {
        current
    }
}

/// While the sync is quiet the progress never goes back, never passes 89 on
/// its own, and follows the clock alone once it passes the progress shown:
/// after `s` quiet seconds it is at most the larger of the current progress and
/// 64 plus a quarter of `s`; below 64 the current progress plays no part; and
/// more quiet seconds never show less.
pub proof fn lemma_waiting_progress_follows_clock(s: u16, t: u16, c: u8, d: u8)
    requires
        s < 768,
        t < 768,
    ensures
        waiting_progress(s, c) >= c,
        waiting_progress(s, c) <= (if c > 89 {
            c as int
        } else {
            89
        }),
        waiting_progress(s, c) <= (if c > 64 + s / 4 {
            c as int
        } else {
            64 + s / 4
        }),
        waiting_progress(s, c) >= (if 64 + s / 4 < 89 {
            64 + s / 4
        } else {
            89
        }),
        c <= 64 && d <= 64 ==> waiting_progress(s, c) == waiting_progress(s, d),
        s <= t ==> waiting_progress(s, c) <= waiting_progress(t, c),
{
    assert(((s / 4) as u8) as int == s / 4);
    assert(((t / 4) as u8) as int == t / 4);
}

/// The addition `64 + quarter` of `waiting_progress` does not overflow a `u8`.
pub open spec fn waiting_progress_fits(elapsed_secs: u16) -> bool {
    ((elapsed_secs / 4) as u8) <= 191
}

/// Whether `waiting_progress_fits(elapsed_secs)` holds.
pub fn wait_update_fits(elapsed_secs: u16) -> (r: bool)
    ensures
        r == waiting_progress_fits(elapsed_secs),
{
    ((elapsed_secs / 4) as u8) <= 191
}

/// The update shown while a dependency sync is quiet: `parsing` during the
/// first ten seconds, `syncing` (the text that names the seconds) after them.
pub fn dependency_wait_update(
    elapsed_secs: u16,
    current_progress: u8,
    title: String,
    subtitle: String,
    parsing: String,
    syncing: String,
) -> (r: SplashUpdate)
    requires
        waiting_progress_fits(elapsed_secs),
    ensures
        r@ == loading_view(
            title@,
            if elapsed_secs < 10 {
                parsing@
            } else {
                syncing@
            },
            waiting_progress(elapsed_secs, current_progress),
            subtitle@,
        ),
{
    let quarter = (elapsed_secs / 4) as u8;
    let sum: u8 = 64 + quarter;
    let synthetic: u8 = if sum < 89 {
        sum
    } else {
        89
    };
    let progress = if current_progress < synthetic {
        synthetic
    } else {
        current_progress
    };
    let detail = if elapsed_secs < 10 {
        parsing
    } else {
        syncing
    };
    SplashUpdate::loading(title, detail, progress, subtitle)
}

/// The update shown while a runtime tool works for `elapsed_ticks` tenths of a
/// second: the progress goes from `start` to `end` over two minutes; the detail
/// is `waiting` during the first eight seconds and `elapsed` (the text that
/// names the seconds) after them.
pub fn runtime_wait_update(
    title: String,
    waiting: String,
    elapsed: String,
    elapsed_ticks: u16,
    start_progress: u8,
    end_progress: u8,
    subtitle: String,
) -> (r: SplashUpdate)
    requires
        start_progress <= end_progress,
    ensures
        r@ == loading_view(
            title@,
            if elapsed_ticks / 10 < 8 {
                waiting@
            } else {
                elapsed@
            },
            scaled(
                (if elapsed_ticks / 10 < 120 {
                    elapsed_ticks / 10
                } else {
                    120
                }) as u8,
                start_progress,
                end_progress,
            ) as u8,
            subtitle@,
        ),
{
    let elapsed_secs = elapsed_ticks / 10;
    let capped_secs: u16 = if elapsed_secs < 120 {
        elapsed_secs
    } else {
        120
    };
    let progress = scale_progress(capped_secs as u8, start_progress, end_progress);
    let detail = if elapsed_secs < 8 {
        waiting
    } else {
        elapsed
    };
    SplashUpdate::loading(title, detail, progress, subtitle)
}

/// The update shown before another attempt of the dependency sync.
pub fn splash_retry_update(title: String, detail: String, subtitle: String) -> (r: SplashUpdate)
    ensures
        r@ == loading_view(title@, detail@, 64, subtitle@),
{
    SplashUpdate::loading(title, detail, 64, subtitle)
}

} // verus!
