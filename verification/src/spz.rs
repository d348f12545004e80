//! The adapter to the decode service for the compressed format: the message
//! that asks for a decode, the bounded wait for the answer, and the
//! conversion of the answer into records.
//!
//! The service itself is outside: the caller posts the message, looks into
//! the inbox and sleeps; this module decides.

use vstd::prelude::*;
use crate::error::{FormatError, SceneError};
use crate::splat::SerializedSplat2;

verus! {

/// How often the inbox is looked into before the service is given up.
pub const MAX_ATTEMPTS: u32 = 33;

/// Milliseconds between two looks into the inbox.
pub const POLL_INTERVAL_MS: u32 = 1000;

/// A decoded point cloud as the service hands it over: flat arrays, point
/// after point.
#[derive(Debug, Clone)]
pub struct GaussianCloud {
    /// Number of points.
    pub num_points: i32,
    /// Degree of the spherical harmonics.
    pub sh_degree: i32,
    /// Whether the cloud was trained with antialiasing.
    pub antialiased: bool,
    /// Three words a point.
    pub positions: Vec<u32>,
    /// Three words a point, logarithms.
    pub scales: Vec<u32>,
    /// Four words a point.
    pub rotations: Vec<u32>,
    /// One word a point, a logit.
    pub alphas: Vec<u32>,
    /// Three words a point: the base color.
    pub colors: Vec<u32>,
    /// 45 words a point: the spherical-harmonics coefficients.
    pub sh: Vec<u32>,
}

impl GaussianCloud {
    /// The arrays hold `num_points` points.
    pub open spec fn holds_points(self) -> bool {
        &&& 0 <= self.num_points
        &&& self.positions.len() >= 3 * self.num_points
        &&& self.scales.len() >= 3 * self.num_points
        &&& self.rotations.len() >= 4 * self.num_points
        &&& self.alphas.len() >= self.num_points
        &&& self.colors.len() >= 3 * self.num_points
        &&& self.sh.len() >= 45 * self.num_points
    }

    /// `splat` is point `i` of the cloud; its color field is the base color
    /// followed by the 45 spherical-harmonics coefficients.
    pub open spec fn is_point(self, i: int, splat: SerializedSplat2) -> bool {
        &&& splat.position@ == self.positions@.subrange(3 * i, 3 * i + 3)
        &&& splat.scale@ == self.scales@.subrange(3 * i, 3 * i + 3)
        &&& splat.rotation@ == self.rotations@.subrange(4 * i, 4 * i + 4)
        &&& splat.alpha == self.alphas@[i]
        &&& splat.color@ == self.colors@.subrange(3 * i, 3 * i + 3) + self.sh@.subrange(
            45 * i,
            45 * i + 45,
        )
    }

    /// Whether the arrays hold `num_points` points.
    pub fn is_complete(&self) -> (holds: bool)
        ensures
            holds == self.holds_points(),
    {
        if self.num_points < 0 {
            return false;
        }
        let n = self.num_points as u64;
        self.positions.len() as u64 >= 3 * n && self.scales.len() as u64 >= 3 * n
            && self.rotations.len() as u64 >= 4 * n && self.alphas.len() as u64 >= n
            && self.colors.len() as u64 >= 3 * n && self.sh.len() as u64 >= 45 * n
    }

    /// The points of the cloud as records of the layout without a normal. A
    /// cloud whose arrays do not hold `num_points` points is rejected.
    pub fn create_serialized_splat_vec(&self) -> (splats: Result<Vec<SerializedSplat2>, SceneError>)
        ensures
            match splats {
                Ok(v) => {
                    &&& self.holds_points()
                    &&& v.len() == self.num_points
                    &&& forall|i: int| 0 <= i < v.len() ==> self.is_point(i, #[trigger] v[i])
                },
                Err(e) => e == SceneError::Format(FormatError::BodyLength) && !self.holds_points(),
            },
    {
        if !self.is_complete() {
            return Err(SceneError::Format(FormatError::BodyLength));
        }
        let n = self.num_points as usize;
        let mut v: Vec<SerializedSplat2> = Vec::new();
        let mut i: usize = 0;
        while i < n
            invariant
                i <= n,
                n == self.num_points,
                self.holds_points(),
                v.len() == i,
                forall|k: int| 0 <= k < i ==> self.is_point(k, #[trigger] v[k]),
            decreases n - i,
        {
            let mut color: [u32; 48] = [0u32;48];
            let mut k: usize = 0;
            while k < 48
                invariant
                    k <= 48,
                    i < n,
                    n == self.num_points,
                    self.holds_points(),
                    forall|j: int|
                        0 <= j < k ==> color@[j] == if j < 3 {
                            self.colors@[3 * i + j]
                        } else {
                            self.sh@[45 * i + j - 3]
                        },
                decreases 48 - k,
            {
                color[k] = if k < 3 {
                    self.colors[3 * i + k]
                } else {
                    self.sh[45 * i + k - 3]
                };
                k += 1;
            }
            assert(color@ =~= self.colors@.subrange(3 * i, 3 * i + 3) + self.sh@.subrange(
                45 * i,
                45 * i + 45,
            ));
            let splat = SerializedSplat2 {
                position: copy_words::<3>(&self.positions, 3 * i),
                scale: copy_words::<3>(&self.scales, 3 * i),
                rotation: copy_words::<4>(&self.rotations, 4 * i),
                alpha: self.alphas[i],
                color,
            };
            v.push(splat);
            i += 1;
        }
        Ok(v)
    }
}

/// The `N` words of `words` from `at` on.
fn copy_words<const N: usize>(words: &Vec<u32>, at: usize) -> (copy: [u32; N])
    requires
        at + N <= words.len(),
    ensures
        copy@ == words@.subrange(at as int, at + N),
{
    let mut copy: [u32; N] = [0u32;N];
    let mut k: usize = 0;
    while k < N
        invariant
            k <= N,
            at + N <= words.len(),
            forall|j: int| 0 <= j < k ==> copy@[j] == words@[at + j],
        decreases N - k,
    {
        copy[k] = words[at + k];
        k += 1;
    }
    assert(copy@ =~= words@.subrange(at as int, at + N));
    copy
}

/// A message for the decode service.
#[derive(Debug, Clone)]
pub struct WorkerMessage {
    /// The command.
    pub kind: String,
    /// Where the service finds the bytes to decode.
    pub url: String,
}

/// How far the wait for the service has come.
#[derive(Clone, Copy, Debug, PartialEq, Eq, Structural)]
pub enum Polling {
    /// The inbox was found empty `attempts` times.
    Pending { attempts: u32 },
    /// The answer has arrived.
    Ready,
    /// The service was given up.
    TimedOut,
}

/// What the caller does after a look into the inbox.
#[derive(Debug)]
pub enum PollAction {
    /// Sleep for so many milliseconds, then look again.
    Wait(u32),
    /// Load these records.
    Deliver(Vec<SerializedSplat2>),
    /// Give up with this error.
    Fail(SceneError),
    /// Nothing: the wait was over before.
    Rest,
}

impl Polling {
    /// The wait after a look into the inbox that found an answer or none.
    /// The `MAX_ATTEMPTS`th empty look ends the wait; a wait that is over
    /// stays as it is.
    pub open spec fn polled(self, answered: bool) -> Polling {
        match self {
            Polling::Pending { attempts } => if answered {
                Polling::Ready
            } else if attempts + 1 >= MAX_ATTEMPTS {
                Polling::TimedOut
            } else {
                Polling::Pending { attempts: (attempts + 1) as u32 }
            },
            over => over,
        }
    }

    /// The wait after `n` looks that all found the inbox empty.
    pub open spec fn polled_in_vain(self, n: nat) -> Polling
        decreases n,
    {
        if n == 0 {
            self
        } else {
            self.polled(false).polled_in_vain((n - 1) as nat)
        }
    }
}

/// Without an answer, a wait that has seen `done` empty looks is pending
/// through the next `n` of them as long as fewer than `MAX_ATTEMPTS` were
/// made, and is given up from the `MAX_ATTEMPTS`th on.
pub proof fn lemma_wait_is_bounded(done: u32, n: nat)
    requires
        done < MAX_ATTEMPTS,
    ensures
        (Polling::Pending { attempts: done }).polled_in_vain(n) == if done + n < MAX_ATTEMPTS {
            Polling::Pending { attempts: (done + n) as u32 }
        } else {
            Polling::TimedOut
        },
    decreases n,
{
    let start = Polling::Pending { attempts: done };
    if n > 0 {
        if done + 1 < MAX_ATTEMPTS {
            lemma_wait_is_bounded((done + 1) as u32, (n - 1) as nat);
        } else {
            lemma_over_stays_over(Polling::TimedOut, (n - 1) as nat);
        }
    }
}

/// A wait that is over stays over.
pub proof fn lemma_over_stays_over(wait: Polling, n: nat)
    requires
        wait is Ready || wait is TimedOut,
    ensures
        wait.polled_in_vain(n) == wait,
    decreases n,
{
    if n > 0 {
        lemma_over_stays_over(wait, (n - 1) as nat);
    }
}

/// The adapter's state.
#[derive(Debug, Clone, Copy)]
pub struct Spz {
    /// Whether the service was started.
    pub started: bool,
    /// How far the wait for its answer has come.
    pub polling: Polling,
}

impl Spz {
    /// An adapter whose service is not started.
    pub fn new() -> (spz: Spz)
        ensures
            !spz.started,
            spz.polling == (Polling::Pending { attempts: 0 }),
    {
        Spz { started: false, polling: Polling::Pending { attempts: 0 } }
    }

    /// Notes that the service was started, and begins a new wait.
    pub fn init(&mut self)
        ensures
            final(self).started,
            final(self).polling == (Polling::Pending { attempts: 0 }),
    {
        self.started = true;
        self.polling = Polling::Pending { attempts: 0 };
    }

    /// The message to post to the service for a command: for `load` with a
    /// URL, once the service is started, the command and the URL; otherwise
    /// none.
    pub fn post2worker(&self, type_str: &str, url: Option<String>) -> (message: Option<
        WorkerMessage,
    >)
        ensures
            match message {
                Some(m) => {
                    &&& self.started
                    &&& type_str@ == "load"@
                    &&& url is Some
                    &&& m.kind@ == "load"@
                    &&& m.url@ == url.unwrap()@
                },
                None => !self.started || type_str@ != "load"@ || url is None,
            },
    {
        if !self.started {
            return None;
        }
        let kind = type_str.to_owned();
        let load = "load".to_owned();
        if kind != load {
            return None;
        }
        match url {
            Some(url) => Some(WorkerMessage { kind, url }),
            None => None,
        }
    }
}

/// What follows from a look into the inbox, for the adapter after it (its
/// wait moved on by [`Polling::polled`]): an answer that arrives in time is
/// converted and delivered, or fails if its arrays are too short; an empty
/// inbox means another wait, or the time-out at the last attempt; after the
/// wait is over nothing follows.
pub open spec fn follows(before: Spz, answer: Option<GaussianCloud>, action: PollAction) -> bool {
    match before.polling {
        Polling::Pending { attempts } => match answer {
            Some(cloud) => if cloud.holds_points() {
                &&& action matches PollAction::Deliver(v)
                &&& v.len() == cloud.num_points
                &&& forall|i: int| 0 <= i < v.len() ==> cloud.is_point(i, #[trigger] v[i])
            } else {
                action == PollAction::Fail(SceneError::Format(FormatError::BodyLength))
            },
            None => if attempts + 1 >= MAX_ATTEMPTS {
                action == PollAction::Fail(SceneError::ServiceTimeout)
            } else {
                action == PollAction::Wait(POLL_INTERVAL_MS)
            },
        },
        _ => action == PollAction::Rest,
    }
}

/// One look into the inbox while waiting for the service: moves the wait on
/// and says what to do next.
pub fn load_spz(spz: &mut Spz, answer: Option<&GaussianCloud>) -> (action: PollAction)
    ensures
        final(spz).started == old(spz).started,
        final(spz).polling == old(spz).polling.polled(answer is Some),
        follows(
            *old(spz),
            match answer {
                Some(cloud) => Some(*cloud),
                None => None,
            },
            action,
        ),
{
    match spz.polling {
        Polling::Pending { attempts } => match answer {
            Some(cloud) => {
                spz.polling = Polling::Ready;
                match cloud.create_serialized_splat_vec() {
                    Ok(v) => PollAction::Deliver(v),
                    Err(e) => PollAction::Fail(e),
                }
            },
            None => {
                if attempts >= MAX_ATTEMPTS - 1 {
                    spz.polling = Polling::TimedOut;
                    PollAction::Fail(SceneError::ServiceTimeout)
                } else {
                    spz.polling = Polling::Pending { attempts: attempts + 1 };
                    PollAction::Wait(POLL_INTERVAL_MS)
                }
            },
        },
        _ => PollAction::Rest,
    }
}

} // verus!
