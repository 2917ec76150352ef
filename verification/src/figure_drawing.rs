//! The session engine: the append-only history of selected references,
//! the cursor navigating it, the SFW filter flag, the auto-refresh pacing
//! policy, random selection of fresh references, and the bounded retry
//! policy for failed decodes.

use vstd::prelude::*;

use crate::reference::{RefStore, Reference};

verus! {

/// Failures the session engine reports.
#[derive(Debug)]
pub enum SessionError {
    /// No reference passes the active filter; nothing was mutated.
    EmptyStore,
    /// A decode failed and the retry budget is exhausted.
    DecodeFailure,
}

/// How many failed decodes are retried by re-selection before the failure
/// is surfaced to the user.
pub const MAX_DECODE_RETRIES: u8 = 8;

/// How long one reference is shown by default, in milliseconds.
pub const DEFAULT_DURATION_MS: u64 = 60000;

/// The state of one practice session.
pub struct FigureDrawingState {
    /// Position in the history currently displayed; `None` until a first
    /// selection or navigation happens.
    pub current_ref: Option<usize>,
    /// Every reference selected so far, in selection order. Append-only;
    /// the same reference may appear twice by chance.
    pub history: Vec<Reference>,
    /// Whether selection is restricted to safe-for-work folders.
    pub sfw_only: bool,
    /// How long one reference is shown, in milliseconds.
    pub duration_per_image: u64,
    /// When a fresh reference was last fetched, in milliseconds since the
    /// session clock's origin.
    pub last_fetched: u64,
    /// Decode failures since the last successful decode.
    pub decode_failures: u8,
}

impl Default for FigureDrawingState {
    fn default() -> (r: Self)
        ensures
            r.current_ref is None,
            r.history@.len() == 0,
            r.sfw_only == true,
            r.duration_per_image == DEFAULT_DURATION_MS,
            r.last_fetched == 0,
            r.decode_failures == 0,
    {
        FigureDrawingState {
            current_ref: None,
            history: Vec::new(),
            sfw_only: true,
            duration_per_image: DEFAULT_DURATION_MS,
            last_fetched: 0,
            decode_failures: 0,
        }
    }
}

/// Where a first navigation seeds the cursor: position `amount - 1` for a
/// forward step, position zero for any other step.
pub open spec fn seeded_cursor(amount: isize) -> int {
    if amount >= 1 {
        amount - 1
    } else {
        0
    }
}

/// Where navigation moves an existing cursor: the sum, saturated to the
/// usize range, so the cursor never goes below zero.
pub open spec fn stepped_cursor(current: usize, amount: isize) -> int {
    if current + amount < 0 {
        0
    } else if current + amount > usize::MAX {
        usize::MAX as int
    } else {
        current + amount
    }
}

/// Where `navigate` puts the cursor.
pub open spec fn navigated_cursor(current: Option<usize>, amount: isize) -> int {
    match current {
        Option::None => seeded_cursor(amount),
        Option::Some(c) => stepped_cursor(c, amount),
    }
}

/// Relies on fastrand::usize over the range `0..count`: the draw is
/// uniform and the range is not empty, so the result is below `count`.
#[verifier::external_body]
fn random_index(count: usize) -> (r: usize)
    requires
        count > 0,
    ensures
        r < count,
{
    fastrand::usize(..count)
}

impl FigureDrawingState {
    /// Moves the cursor by `amount` without touching history: a cursor
    /// inside history moves by the saturated sum, a first navigation
    /// seeds the cursor. Returns whether the cursor now stands past the
    /// end of history, in which case the caller must draw a fresh
    /// reference (`load_new_reference`) rather than fail.
    pub fn navigate(&mut self, amount: isize) -> (needs_load: bool)
        ensures
            final(self).history == old(self).history,
            final(self).sfw_only == old(self).sfw_only,
            final(self).duration_per_image == old(self).duration_per_image,
            final(self).last_fetched == old(self).last_fetched,
            final(self).decode_failures == old(self).decode_failures,
            final(self).current_ref matches Some(c) && c == navigated_cursor(
                old(self).current_ref,
                amount,
            ),
            needs_load == (navigated_cursor(old(self).current_ref, amount)
                >= old(self).history@.len()),
    {
        let new_cursor: usize = match self.current_ref {
            None => {
                if amount >= 1 {
                    (amount - 1) as usize
                } else {
                    0
                }
            },
            Some(c) => {
                let moved: i128 = c as i128 + amount as i128;
                if moved < 0 {
                    0
                } else if moved > usize::MAX as i128 {
                    usize::MAX
                } else {
                    moved as usize
                }
            },
        };
        self.current_ref = Some(new_cursor);
        new_cursor >= self.history.len()
    }

    /// Whether re-entering the session view must fetch a fresh reference:
    /// nothing was ever fetched, or more than the configured interval has
    /// passed since the last fetch.
    pub open spec fn needs_refresh(self, now: u64) -> bool {
        self.history@.len() == 0 || now > self.last_fetched + self.duration_per_image
    }

    /// The auto-refresh policy, evaluated on entry to the session view
    /// rather than by a background timer. The caller draws a fresh
    /// reference exactly when this returns true.
    pub fn maybe_auto_refresh(&self, now: u64) -> (r: bool)
        ensures
            r == self.needs_refresh(now),
    {
        if self.history.len() == 0 {
            true
        } else {
            now >= self.last_fetched && now - self.last_fetched > self.duration_per_image
        }
    }

    /// Records the moment a fresh reference was fetched, for auto-refresh
    /// pacing.
    pub fn mark_fetched(&mut self, now: u64)
        ensures
            final(self).last_fetched == now,
            final(self).current_ref == old(self).current_ref,
            final(self).history == old(self).history,
            final(self).sfw_only == old(self).sfw_only,
            final(self).duration_per_image == old(self).duration_per_image,
            final(self).decode_failures == old(self).decode_failures,
    {
        self.last_fetched = now;
    }

    /// Switches the SFW filter. Takes effect on the next selection; the
    /// history already accumulated is not retroactively filtered.
    pub fn set_filter(&mut self, sfw_only: bool)
        ensures
            final(self).sfw_only == sfw_only,
            final(self).current_ref == old(self).current_ref,
            final(self).history == old(self).history,
            final(self).duration_per_image == old(self).duration_per_image,
            final(self).last_fetched == old(self).last_fetched,
            final(self).decode_failures == old(self).decode_failures,
    {
        self.sfw_only = sfw_only;
    }

    /// Selects a fresh reference: draws an index uniformly over the
    /// filtered flattened view, appends the resolved reference to the
    /// history, and seeds the cursor if nothing was selected yet. With no
    /// reference passing the filter it fails with `EmptyStore` and
    /// mutates nothing. The caller dispatches the decode of the returned
    /// reference; index resolution cannot fail, because the count and the
    /// resolution are computed from the same filtered view.
    pub fn load_new_reference(&mut self, store: &RefStore) -> (r: Result<Reference, SessionError>)
        requires
            store.wf(),
        ensures
            r is Ok <==> store.refs(old(self).sfw_only).len() > 0,
            match r {
                Result::Ok(picked) => {
                    &&& store.refs(old(self).sfw_only).contains(picked.path@)
                    &&& final(self).history@ == old(self).history@.push(picked)
                    &&& final(self).current_ref == (if old(self).current_ref is None {
                        Some(0usize)
                    } else {
                        old(self).current_ref
                    })
                    &&& final(self).sfw_only == old(self).sfw_only
                    &&& final(self).duration_per_image == old(self).duration_per_image
                    &&& final(self).last_fetched == old(self).last_fetched
                    &&& final(self).decode_failures == old(self).decode_failures
                },
                Result::Err(e) => e == SessionError::EmptyStore && *final(self) == *old(self),
            },
    {
        let sfw_filter = self.sfw_only;
        let count = store.reference_count(sfw_filter);
        if count == 0 {
            return Err(SessionError::EmptyStore);
        }
        let index = random_index(count);
        let picked = match store.get_reference(index, sfw_filter) {
            Some(p) => p.clone(),
            None => unreached(),
        };
        proof {
            assert(store.refs(sfw_filter)[index as int] == picked.path@);
            assert(store.refs(sfw_filter).contains(picked.path@));
        }
        self.history.push(picked.clone());
        if self.current_ref.is_none() {
            self.current_ref = Some(0);
        }
        Ok(picked)
    }

    /// Counts a failed decode and decides what happens next: within the
    /// retry budget the caller re-selects (`Ok`), past it the failure is
    /// surfaced (`Err(DecodeFailure)`) instead of looping forever on a
    /// persistently unreadable file.
    pub fn on_decode_failure(&mut self) -> (r: Result<(), SessionError>)
        ensures
            old(self).decode_failures < MAX_DECODE_RETRIES ==> final(self).decode_failures
                == old(self).decode_failures + 1 && r is Ok,
            old(self).decode_failures >= MAX_DECODE_RETRIES ==> *final(self) == *old(self) && r
                == Result::<(), SessionError>::Err(SessionError::DecodeFailure),
            final(self).current_ref == old(self).current_ref,
            final(self).history == old(self).history,
            final(self).sfw_only == old(self).sfw_only,
            final(self).duration_per_image == old(self).duration_per_image,
            final(self).last_fetched == old(self).last_fetched,
    {
        if self.decode_failures < MAX_DECODE_RETRIES {
            self.decode_failures = self.decode_failures + 1;
            Ok(())
        } else {
            Err(SessionError::DecodeFailure)
        }
    }

    /// Resets the retry budget after a successful decode.
    pub fn on_decode_success(&mut self)
        ensures
            final(self).decode_failures == 0,
            final(self).current_ref == old(self).current_ref,
            final(self).history == old(self).history,
            final(self).sfw_only == old(self).sfw_only,
            final(self).duration_per_image == old(self).duration_per_image,
            final(self).last_fetched == old(self).last_fetched,
    {
        self.decode_failures = 0;
    }

    /// The reference the cursor points at, when the cursor stands inside
    /// the history. The view layer shows the cached pixels of this
    /// reference, or a loading placeholder while its decode is in flight.
    pub fn current_reference(&self) -> (r: Option<&Reference>)
        ensures
            match r {
                Some(p) => self.current_ref matches Some(c) && c < self.history@.len() && *p
                    == self.history@[self.current_ref->0 as int],
                None => self.current_ref matches Some(c) ==> c >= self.history@.len(),
            },
    {
        match self.current_ref {
            None => None,
            Some(c) => {
                if c < self.history.len() {
                    Some(&self.history[c])
                } else {
                    None
                }
            },
        }
    }
}

/// A keyboard event as the session logic sees it: a named key, a typed
/// character, or something the backend could not identify.
#[derive(Clone, Copy)]
pub enum KeyInput {
    Named(NamedKey),
    Character(char),
    Unidentified,
}

/// The named keys the application distinguishes.
#[derive(Clone, Copy)]
pub enum NamedKey {
    ArrowUp,
    ArrowDown,
    ArrowLeft,
    ArrowRight,
    Other,
}

/// Maps a key press on the session view to a navigation step: `l` steps
/// one forward, `h` one back, everything else does nothing.
pub fn keypress(key: KeyInput) -> (r: Option<isize>)
    ensures
        r == (match key {
            KeyInput::Character(c) => if c == 'l' {
                Some(1isize)
            } else if c == 'h' {
                Some(-1isize)
            } else {
                None::<isize>
            },
            _ => None::<isize>,
        }),
{
    match key {
        KeyInput::Character(c) => {
            if c == 'l' {
                Some(1)
            } else if c == 'h' {
                Some(-1)
            } else {
                None
            }
        },
        _ => None,
    }
}

/// Law: navigating backward (or in place) from a cursor inside the
/// history keeps it inside the history and never moves it forward or
/// below zero, so `navigate` reports no load and, by its contract,
/// history is untouched. Repeated backward steps therefore never trigger
/// a selection.
pub proof fn lemma_navigate_back_no_load(current: usize, amount: isize, history_len: nat)
    requires
        amount <= 0,
        current < history_len,
    ensures
        0 <= navigated_cursor(Some(current), amount) <= current,
        navigated_cursor(Some(current), amount) < history_len,
{
}

/// Law: one forward step from a cursor inside the history lands at most
/// on the position right past its end, so the single selection that
/// `navigate` then requests (which extends the history by one) brings
/// the cursor back inside it: the cursor never exceeds the history's
/// length once the navigation step completes.
pub proof fn lemma_navigate_step_stays_in_history(current: usize, history_len: nat)
    requires
        current < history_len,
        history_len <= usize::MAX,
    ensures
        navigated_cursor(Some(current), 1) <= history_len,
{
}

} // verus!
