//! The delivery of one batch: post, wait longer after each failure, give up after the last.

use vstd::prelude::*;

verus! {

/// How often a batch is posted at most.
pub const ATTEMPTS: usize = 3;

/// Seconds after which a post that has no reply counts as failed.
pub const REQUEST_TIMEOUT_SECS: u64 = 10;

/// The content type of a post.
pub fn content_type() -> (text: &'static str)
    ensures
        text@ == "application/x-protobuf"@,
{
    "application/x-protobuf"
}

/// How a post ended.
pub enum Outcome {
    /// The collector took the batch.
    Delivered,
    /// The collector answered with another status.
    Refused(String),
    /// There was no answer.
    Failed(String),
}

/// What to do after a post.
pub enum AfterPost {
    /// The batch is delivered.
    Done,
    /// Report the failure, then wait.
    Wait { report: String, millis: u64 },
}

/// What to do after a wait.
pub enum AfterWait {
    /// Post again.
    Post,
    /// Report that the batch is lost.
    Drop { report: String },
}

// --- Model ---

/// Where a delivery stands: how many posts have failed, and whether the next step is to wait.
#[derive(Clone, Copy, Debug, PartialEq, Eq, Structural)]
pub enum Stage {
    /// A post is due or under way.
    Posting(usize),
    /// The post after this many failures has failed too; the wait is due or under way.
    Waiting(usize),
    /// The batch was delivered.
    Delivered,
    /// The batch was given up.
    Dropped,
}

/// Milliseconds to wait after the failure that follows `failures` others.
pub open spec fn delay(failures: int) -> u64 {
    if failures == 0 {
        100
    } else if failures == 1 {
        400
    } else {
        1600
    }
}

/// A stage that a delivery can be in.
pub open spec fn possible(stage: Stage) -> bool {
    match stage {
        Stage::Posting(failures) => failures < ATTEMPTS,
        Stage::Waiting(failures) => failures < ATTEMPTS,
        _ => true,
    }
}

/// The stage after a post.
pub open spec fn after_post(stage: Stage, delivered: bool) -> Stage {
    match stage {
        Stage::Posting(failures) => if delivered {
            Stage::Delivered
        } else {
            Stage::Waiting(failures)
        },
        _ => stage,
    }
}

/// The stage after a wait.
pub open spec fn after_wait(stage: Stage) -> Stage {
    match stage {
        Stage::Waiting(failures) => if failures + 1 < ATTEMPTS {
            Stage::Posting((failures + 1) as usize)
        } else {
            Stage::Dropped
        },
        _ => stage,
    }
}

/// A count as text.
pub open spec fn count_text(count: int) -> Seq<char> {
    if count == 1 {
        "1"@
    } else if count == 2 {
        "2"@
    } else {
        "3"@
    }
}

/// What is said of a failed post, the one after `failures` others.
pub open spec fn failure_report(url: Seq<char>, failures: int, detail: Seq<char>) -> Seq<char> {
    "pz-o11y: export attempt "@ + count_text(failures + 1) + "/3 to "@ + url + " failed: "@ + detail
}

/// The detail of a failure: the status of an answer, or the error.
pub open spec fn outcome_detail(outcome: Outcome) -> Seq<char> {
    match outcome {
        Outcome::Delivered => Seq::empty(),
        Outcome::Refused(status) => "HTTP "@ + status@,
        Outcome::Failed(error) => error@,
    }
}

// --- Delivery ---

/// The delivery of one batch.
pub struct Delivery {
    url: String,
    stage: Stage,
}

impl Delivery {
    /// Where the batch goes.
    pub closed spec fn url(&self) -> Seq<char> {
        self.url@
    }

    /// Where the delivery stands.
    pub closed spec fn stage(&self) -> Stage {
        self.stage
    }

    /// A delivery whose first post is due.
    pub fn new(url: &str) -> (delivery: Delivery)
        ensures
            delivery.url() == url@,
            delivery.stage() == Stage::Posting(0),
            possible(delivery.stage()),
    {
        Delivery { url: url.to_string(), stage: Stage::Posting(0) }
    }

    /// Decide what to do after a post.
    pub fn posted(&mut self, outcome: Outcome) -> (next: AfterPost)
        requires
            possible(old(self).stage()),
            old(self).stage() is Posting,
        ensures
            final(self).url() == old(self).url(),
            final(self).stage() == after_post(old(self).stage(), outcome is Delivered),
            possible(final(self).stage()),
            next is Done <==> outcome is Delivered,
            next matches AfterPost::Wait { report, millis } ==> {
                let failures = old(self).stage()->Posting_0 as int;
                &&& millis == delay(failures)
                &&& report@ == failure_report(old(self).url(), failures, outcome_detail(outcome))
            },
    {
        let failures: usize = match self.stage {
            Stage::Posting(failures) => failures,
            _ => 0,
        };
        let detail = match outcome {
            Outcome::Delivered => {
                self.stage = Stage::Delivered;
                return AfterPost::Done;
            },
            Outcome::Refused(status) => {
                let mut detail = "HTTP ".to_string();
                detail.append(status.as_str());
                detail
            },
            Outcome::Failed(error) => error,
        };
        self.stage = Stage::Waiting(failures);
        let (count, millis): (&str, u64) = if failures == 0 {
            ("1", 100)
        } else if failures == 1 {
            ("2", 400)
        } else {
            ("3", 1600)
        };
        let mut report = "pz-o11y: export attempt ".to_string();
        report.append(count);
        report.append("/3 to ");
        report.append(self.url.as_str());
        report.append(" failed: ");
        report.append(detail.as_str());
        AfterPost::Wait { report, millis }
    }

    /// Decide what to do after a wait.
    pub fn waited(&mut self) -> (next: AfterWait)
        requires
            possible(old(self).stage()),
            old(self).stage() is Waiting,
        ensures
            final(self).url() == old(self).url(),
            final(self).stage() == after_wait(old(self).stage()),
            possible(final(self).stage()),
            next is Post <==> final(self).stage() is Posting,
            next matches AfterWait::Drop { report } ==> report@
                == "pz-o11y: dropping batch after 3 retries"@,
    {
        let failures: usize = match self.stage {
            Stage::Waiting(failures) => failures,
            _ => 0,
        };
        if failures + 1 < ATTEMPTS {
            self.stage = Stage::Posting(failures + 1);
            AfterWait::Post
        } else {
            self.stage = Stage::Dropped;
            AfterWait::Drop { report: "pz-o11y: dropping batch after 3 retries".to_string() }
        }
    }
}

// --- Laws ---

/// What a delivery comes to: how many posts it made, how long it waited, how it ended.
pub struct Course {
    pub posts: nat,
    pub waited: nat,
    pub end: Stage,
}

/// The course of a delivery whose posts are answered in turn; `true` stands for a delivered one.
/// Without a further answer it stays where it is.
pub open spec fn course(stage: Stage, replies: Seq<bool>) -> Course
    decreases replies.len(),
{
    match stage {
        Stage::Posting(failures) => if replies.len() == 0 {
            Course { posts: 0, waited: 0, end: stage }
        } else if replies[0] {
            Course { posts: 1, waited: 0, end: after_post(stage, true) }
        } else {
            let rest = course(after_wait(after_post(stage, false)), replies.skip(1));
            Course {
                posts: rest.posts + 1,
                waited: rest.waited + delay(failures as int) as nat,
                end: rest.end,
            }
        },
        _ => Course { posts: 0, waited: 0, end: stage },
    }
}

/// A batch is posted three times at most, whatever is answered.
pub proof fn law_at_most_three_posts(replies: Seq<bool>)
    ensures
        course(Stage::Posting(0), replies).posts <= ATTEMPTS,
{
    reveal_with_fuel(course, 4);
}

/// A batch is delivered if and only if one of its first three posts is, and posting stops there.
pub proof fn law_first_success_ends(replies: Seq<bool>)
    requires
        replies.len() >= 3,
    ensures
        course(Stage::Posting(0), replies).end == if replies[0] || replies[1] || replies[2] {
            Stage::Delivered
        } else {
            Stage::Dropped
        },
        course(Stage::Posting(0), replies).posts == if replies[0] {
            1
        } else if replies[1] {
            2
        } else {
            3nat
        },
{
    reveal_with_fuel(course, 4);
    assert(replies.skip(1)[0] == replies[1]);
    assert(replies.skip(1).skip(1)[0] == replies[2]);
}

/// The backoff is exponential: each wait is four times the one before.
pub proof fn law_backoff_exponential(failures: int)
    requires
        0 <= failures < ATTEMPTS - 1,
    ensures
        delay(failures + 1) == 4 * delay(failures),
{
}

/// A batch that is never delivered is dropped after waits of 2.1 seconds in all.
pub proof fn law_dropped_after_all_waits(replies: Seq<bool>)
    requires
        replies.len() >= 3,
        !replies[0] && !replies[1] && !replies[2],
    ensures
        course(Stage::Posting(0), replies) == (Course {
            posts: 3,
            waited: 2100,
            end: Stage::Dropped,
        }),
{
    reveal_with_fuel(course, 4);
    assert(replies.skip(1)[0] == replies[1]);
    assert(replies.skip(1).skip(1)[0] == replies[2]);
}

/// The first wait is a tenth of a second, the next ones four times as long each, and there are no
/// more than three posts. A post has ten seconds.
pub proof fn law_delays(failures: int)
    ensures
        failures == 0 ==> delay(failures) == 100,
        failures == 1 ==> delay(failures) == 400,
        failures == 2 ==> delay(failures) == 1600,
        ATTEMPTS == 3,
        REQUEST_TIMEOUT_SECS == 10,
{
}

/// A failure is reported with the number of the attempt, where the batch was to go, and what went
/// wrong: the status that was answered, or the error.
pub proof fn law_failure_reported(url: Seq<char>, failures: int, outcome: Outcome)
    requires
        0 <= failures < 3,
        outcome !is Delivered,
    ensures
        ({
            let report = failure_report(url, failures, outcome_detail(outcome));
            let number = if failures == 0 {
                "1"@
            } else if failures == 1 {
                "2"@
            } else {
                "3"@
            };
            let told = "pz-o11y: export attempt "@ + number + "/3 to "@ + url + " failed: "@;
            &&& outcome matches Outcome::Refused(status) ==> report == told + ("HTTP "@ + status@)
            &&& outcome matches Outcome::Failed(error) ==> report == told + error@
        }),
{
}

/// A delivered post ends the delivery; any other is followed by a wait. A wait is followed by the
/// next post, until three have failed.
pub proof fn law_stages(failures: usize)
    requires
        failures < 3,
    ensures
        possible(Stage::Posting(failures)) && possible(Stage::Waiting(failures)),
        after_post(Stage::Posting(failures), true) == Stage::Delivered,
        after_post(Stage::Posting(failures), false) == Stage::Waiting(failures),
        failures < 2 ==> after_wait(Stage::Waiting(failures)) == Stage::Posting(
            (failures + 1) as usize,
        ),
        failures == 2 ==> after_wait(Stage::Waiting(failures)) == Stage::Dropped,
{
}

} // verus!
