//! One reading of what the user is doing, and how it is picked from the
//! window list.

use vstd::prelude::*;

verus! {

/// One reading of what the user is doing right now.
#[derive(Debug, Clone, Default)]
pub struct Sample {
    /// Owning app of the frontmost window, e.g. "Code". Empty if unknown.
    pub app: String,
    /// Bundle identifier, when cheaply available. Empty for now.
    pub bundle_id: String,
    /// Frontmost window title. Empty without Screen Recording permission.
    pub title: String,
    /// Milliseconds since the last keyboard or mouse input.
    pub idle_ms: i64,
}

#[verifier::ext_equal]
pub struct SampleView {
    pub app: Seq<char>,
    pub bundle_id: Seq<char>,
    pub title: Seq<char>,
    pub idle_ms: i64,
}

impl View for Sample {
    type V = SampleView;

    open spec fn view(&self) -> SampleView {
        SampleView {
            app: self.app@,
            bundle_id: self.bundle_id@,
            title: self.title@,
            idle_ms: self.idle_ms,
        }
    }
}

/// One entry of the window list, front to back.
#[derive(Debug, Clone)]
pub struct WindowInfo {
    /// 0 for a normal window; `None` if the list does not say.
    pub layer: Option<i64>,
    pub owner: String,
    pub title: String,
}

/// A normal window of a named app.
pub open spec fn is_app_window(w: WindowInfo) -> bool {
    w.layer == Some(0i64) && w.owner@.len() > 0
}

/// The first app window at or behind position `i`.
pub open spec fn first_app_window(windows: Seq<WindowInfo>, i: int) -> Option<WindowInfo>
    decreases windows.len() - i,
{
    if i < 0 || i >= windows.len() {
        None
    } else if is_app_window(windows[i]) {
        Some(windows[i])
    } else {
        first_app_window(windows, i + 1)
    }
}

/// The reading of a window list and an idle time: the app and the title of the
/// frontmost app window, or nothing but the idle time.
pub fn frontmost_window(windows: &Vec<WindowInfo>, idle_ms: i64) -> (r: Sample)
    ensures
        r@ == (match first_app_window(windows@, 0) {
            Some(w) => SampleView {
                app: w.owner@,
                bundle_id: Seq::empty(),
                title: w.title@,
                idle_ms,
            },
            None => SampleView {
                app: Seq::empty(),
                bundle_id: Seq::empty(),
                title: Seq::empty(),
                idle_ms,
            },
        }),
{
    let mut i: usize = 0;
    while i < windows.len()
        invariant
            i <= windows@.len(),
            first_app_window(windows@, 0) == first_app_window(windows@, i as int),
        decreases windows@.len() - i,
    {
        let w = &windows[i];
        let normal = match w.layer {
            Some(n) => n == 0,
            None => false,
        };
        if normal && !w.owner.as_str().is_empty() {
            return Sample {
                app: w.owner.clone(),
                bundle_id: String::new(),
                title: w.title.clone(),
                idle_ms,
            };
        }
        i = i + 1;
    }
    Sample { app: String::new(), bundle_id: String::new(), title: String::new(), idle_ms }
}

/// The frontmost window is the first in the list that is a normal window, of
/// layer zero, and has an owner.
pub proof fn law_frontmost_is_the_first_normal_window(windows: Seq<WindowInfo>, i: int)
    requires
        0 <= i <= windows.len(),
        forall|j: int|
            0 <= j < i ==> (#[trigger] windows[j]).layer != Some(0i64) || windows[j].owner@.len()
                == 0,
    ensures
        i < windows.len() && windows[i].layer == Some(0i64) && windows[i].owner@.len() > 0
            ==> first_app_window(windows, 0) == Some(windows[i]),
        i == windows.len() ==> first_app_window(windows, 0) is None,
{
    lemma_from(windows, 0, i);
}

proof fn lemma_from(windows: Seq<WindowInfo>, from: int, i: int)
    requires
        0 <= from <= i <= windows.len(),
        forall|j: int|
            0 <= j < i ==> (#[trigger] windows[j]).layer != Some(0i64) || windows[j].owner@.len()
                == 0,
    ensures
        first_app_window(windows, from) == first_app_window(windows, i),
    decreases i - from,
{
    if from < i {
        lemma_from(windows, from + 1, i);
    }
}

/// The model of a sample has the fields of the sample, each its own.
pub proof fn law_model_of_a_sample(x: Sample)
    ensures
        x@.app == x.app@,
        x@.bundle_id == x.bundle_id@,
        x@.title == x.title@,
        x@.idle_ms == x.idle_ms,
{
}

} // verus!
