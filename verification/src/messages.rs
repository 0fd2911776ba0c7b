//! Request, response and update records exchanged around the ranking core.
//!
//! The engine's collaborators — an HTTP front end, a persistence layer and a
//! WebSocket fan-out — speak in terms of task contents and recorded
//! comparisons. The records themselves are plain data; the checks that
//! guard them (a comparison's winner must be one of its two participants)
//! are verified here, so nothing mislabelled can reach the observation
//! stream.

use std::collections::HashMap;
use vstd::prelude::*;

verus! {

/// A request to create an account.
#[derive(Debug, Clone)]
pub struct RegisterRequest {
    pub username: String,
    pub email: String,
    pub password: String,
}

/// A request to open a session.
#[derive(Debug, Clone)]
pub struct LoginRequest {
    pub email: String,
    pub password: String,
}

/// The claims carried by a session token.
#[derive(Debug, Clone)]
pub struct Claims {
    /// User id.
    pub sub: String,
    /// Expiration time, seconds since the epoch.
    pub exp: usize,
    /// Issue time, seconds since the epoch.
    pub iat: usize,
}

/// A task reduced to its content and completion flag.
#[derive(Debug, Clone)]
pub struct TaskContent {
    pub content: String,
    pub completed: bool,
}

/// A task as the ranking views use it.
#[derive(Debug, Clone, PartialEq, Eq, Hash)]
pub struct TaskInfo {
    pub content: String,
    pub completed: bool,
}

/// A recorded comparison, named by task contents.
#[derive(Debug, Clone)]
pub struct ContentComparison {
    pub task_a_content: String,
    pub task_b_content: String,
    pub winner_content: String,
    pub timestamp: String,
}

/// A recorded comparison in the older id-based shape.
#[derive(Debug, Clone)]
pub struct LegacyComparison {
    pub task_a_id: usize,
    pub task_b_id: usize,
    pub winner_id: usize,
    pub timestamp: String,
}

/// A comparison fanned out to live subscribers.
#[derive(Debug, Clone)]
pub struct ComparisonUpdate {
    pub task_a_content: String,
    pub task_b_content: String,
    pub winner_content: String,
}

/// A request to record one comparison.
#[derive(Debug, Clone)]
pub struct AddComparisonRequest {
    pub task_a_content: String,
    pub task_b_content: String,
    pub winner_content: String,
    pub list_id: String,
}

/// A request to delete a task by content.
#[derive(Debug, Clone)]
pub struct DeleteTaskRequest {
    pub content: String,
    pub list_id: String,
}

/// A request scoped to one task list.
#[derive(Debug, Clone)]
pub struct ListRequest {
    pub list_id: String,
}

/// The recorded comparisons of a list, id-based shape.
#[derive(Debug, Clone)]
pub struct ComparisonsResponse {
    pub comparisons: Vec<LegacyComparison>,
}

/// The recorded comparisons of a list, content-based shape.
#[derive(Debug, Clone)]
pub struct ContentComparisonsResponse {
    pub comparisons: Vec<ContentComparison>,
}

/// Service liveness report.
#[derive(Debug)]
pub struct HealthCheckResponse {
    pub status: String,
    pub db_connected: bool,
    pub memory_mode: bool,
    pub diagnostics: HashMap<String, String>,
}

/// A comparison whose named winner is neither of its two participants.
#[derive(Clone, Copy, Debug, PartialEq, Eq, Structural)]
pub struct WinnerNotParticipant;

impl AddComparisonRequest {
    /// The named winner really is one of the two compared tasks.
    pub fn winner_is_participant(&self) -> (r: bool)
        ensures
            r == (self.winner_content@ == self.task_a_content@ || self.winner_content@
                == self.task_b_content@),
    {
        self.winner_content == self.task_a_content || self.winner_content == self.task_b_content
    }
}

impl ComparisonUpdate {
    /// The named winner really is one of the two compared tasks.
    pub fn winner_is_participant(&self) -> (r: bool)
        ensures
            r == (self.winner_content@ == self.task_a_content@ || self.winner_content@
                == self.task_b_content@),
    {
        self.winner_content == self.task_a_content || self.winner_content == self.task_b_content
    }
}

/// Resolve which stored task id a comparison's winner refers to: the first
/// task's id when the winner matches its content, else the second task's id
/// when it matches that one, and a rejection when it matches neither.
pub fn winner_id_of(
    task_a_content: &String,
    task_b_content: &String,
    winner_content: &String,
    task_a_id: String,
    task_b_id: String,
) -> (r: Result<String, WinnerNotParticipant>)
    ensures
        winner_content@ == task_a_content@ ==> r == Ok::<String, WinnerNotParticipant>(task_a_id),
        winner_content@ != task_a_content@ && winner_content@ == task_b_content@ ==> r
            == Ok::<String, WinnerNotParticipant>(task_b_id),
        winner_content@ != task_a_content@ && winner_content@ != task_b_content@ ==> r
            == Err::<String, WinnerNotParticipant>(WinnerNotParticipant),
{
    if *winner_content == *task_a_content {
        Ok(task_a_id)
    } else if *winner_content == *task_b_content {
        Ok(task_b_id)
    } else {
        Err(WinnerNotParticipant)
    }
}

impl ContentComparison {
    /// The content of the comparison's winner, taken from the two stored
    /// contents: the first when it matches, otherwise the second.
    pub fn winner_of(&self, task_a: String, task_b: String) -> (r: String)
        ensures
            self.winner_content@ == self.task_a_content@ ==> r@ == task_a@,
            self.winner_content@ != self.task_a_content@ ==> r@ == task_b@,
    {
        if self.winner_content == self.task_a_content {
            task_a
        } else {
            task_b
        }
    }

    /// The id-based shape that older clients expect, for the comparison at
    /// position `i` of a listing: the two tasks get the ids `i + 1` and
    /// `i + 2`, and the winner id points at whichever task won.
    pub fn to_legacy(&self, i: usize) -> (r: LegacyComparison)
        requires
            i + 2 <= usize::MAX,
        ensures
            r.task_a_id == i + 1,
            r.task_b_id == i + 2,
            r.winner_id == if self.winner_content@ == self.task_a_content@ {
                i + 1
            } else {
                i + 2
            },
            r.timestamp@ == self.timestamp@,
    {
        LegacyComparison {
            task_a_id: i + 1,
            task_b_id: i + 2,
            winner_id: if self.winner_content == self.task_a_content {
                i + 1
            } else {
                i + 2
            },
            timestamp: self.timestamp.clone(),
        }
    }
}

/// The number of unordered pairs a universe of `n` items offers: the
/// denominator of the coverage statistic.
pub fn possible_pairs(n: usize) -> (r: usize)
    requires
        n * (n - 1) <= usize::MAX,
    ensures
        r == if n >= 2 {
            n * (n - 1) / 2
        } else {
            0
        },
{
    if n >= 2 {
        n * (n - 1) / 2
    } else {
        0
    }
}

} // verus!
