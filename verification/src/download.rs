//! The download service: its workers, its bounded queue and the jobs that can be cancelled.

use vstd::prelude::*;

use crate::model::DownloadEvent;
use crate::model::DownloadEventView;
use crate::text;

verus! {

/// How many downloads may wait.
pub const MAX_QUEUED_DOWNLOADS: usize = 512;

/// The most bytes that the fetched file may have.
pub const MAX_INPUT_BYTES: u64 = 1073741824;

/// How many bytes have to be free before a track is fetched.
pub const MIN_DOWNLOAD_FREE_BYTES: u64 = 2147483648;

/// How many seconds a download may take.
pub const DOWNLOAD_TIMEOUT_SECONDS: u64 = 7200;

/// How many seconds a conversion may take.
pub const CONVERSION_TIMEOUT_SECONDS: u64 = 1800;

/// Whether a character may stand in the name of a file that is named after foreign data.
pub open spec fn harmless(c: char) -> bool {
    ('a' <= c && c <= 'z') || ('A' <= c && c <= 'Z') || ('0' <= c && c <= '9') || c == '-' || c
        == '_'
}

/// The harmless characters of a text, in order.
pub open spec fn harmless_part(value: Seq<char>) -> Seq<char> {
    value.filter(|c: char| harmless(c))
}

/// The name that foreign data gets in a file name: at most 96 of its harmless characters.
pub open spec fn safe_name(value: Seq<char>) -> Seq<char> {
    let kept = text::bounded_text(harmless_part(value), 96);
    if kept.len() == 0 {
        "unknown"@
    } else {
        kept
    }
}

/// The name that foreign data gets in a file name.
pub fn safe_component(value: &str) -> (result: String)
    ensures
        result@ == safe_name(value@),
{
    let mut kept = String::new();
    proof {
        reveal_strlit("");
        assert(kept@ =~= harmless_part(value@.take(0)));
    }
    for c in iter: value.chars()
        invariant
            iter.seq() == value@,
            kept@ == harmless_part(value@.take(iter.index())),
    {
        proof {
            let before = value@.take(iter.index());
            assert(value@.take(iter.index() + 1) =~= before.push(c));
            lemma_harmless_push(before, c);
        }
        if ('a' <= c && c <= 'z') || ('A' <= c && c <= 'Z') || ('0' <= c && c <= '9') || c == '-'
            || c == '_' {
            kept.push(c);
        }
    }
    assert(value@.take(value@.len() as int) =~= value@);
    let name = text::bounded(kept.as_str(), 96);
    if name.as_str().is_empty() {
        assert(name@.len() == 0);
        "unknown".to_owned()
    } else {
        name
    }
}

proof fn lemma_harmless_push(s: Seq<char>, c: char)
    ensures
        harmless_part(s.push(c)) == if harmless(c) {
            harmless_part(s).push(c)
        } else {
            harmless_part(s)
        },
{
    reveal(Seq::filter);
    assert(s.push(c).drop_last() =~= s);
}

/// A name made from foreign data is never empty, has at most 96 characters and holds only ASCII
/// letters and digits, `-` and `_`: no path can be built with it.
pub proof fn lemma_safe_name(value: Seq<char>)
    ensures
        0 < safe_name(value).len() <= 96,
        forall|i: int| 0 <= i < safe_name(value).len() ==> harmless(#[trigger] safe_name(value)[i]),
{
    reveal_strlit("unknown");
    let kept = harmless_part(value);
    assert forall|i: int| 0 <= i < kept.len() implies harmless(#[trigger] kept[i]) by {
        value.lemma_filter_pred(|c: char| harmless(c), i);
    }
}

/// A job that can be cancelled, and the flag that says whether it was.
struct Entry {
    job_id: String,
    token: usize,
}

/// The token of the first entry for a job.
spec fn entry_token(entries: Seq<Entry>, job_id: Seq<char>) -> Option<int>
    decreases entries.len(),
{
    if entries.len() == 0 {
        None
    } else if entries[0].job_id@ == job_id {
        Some(entries[0].token as int)
    } else {
        entry_token(entries.skip(1), job_id)
    }
}

proof fn lemma_entry_found(entries: Seq<Entry>, at: int)
    requires
        0 <= at < entries.len(),
        distinct_jobs(entries),
    ensures
        entry_token(entries, entries[at].job_id@) == Some(entries[at].token as int),
    decreases entries.len(),
{
    if at > 0 {
        assert(entries[0].job_id@ != entries[at].job_id@);
        lemma_distinct_skip(entries);
        assert(entries.skip(1)[at - 1] == entries[at]);
        lemma_entry_found(entries.skip(1), at - 1);
    }
}

proof fn lemma_distinct_skip(entries: Seq<Entry>)
    requires
        distinct_jobs(entries),
        entries.len() > 0,
    ensures
        distinct_jobs(entries.skip(1)),
{
    let rest = entries.skip(1);
    assert forall|i: int, j: int| 0 <= i < j < rest.len() implies rest[i].job_id@
        != rest[j].job_id@ by {
        assert(rest[i] == entries[i + 1] && rest[j] == entries[j + 1]);
    }
}

proof fn lemma_entry_missing(entries: Seq<Entry>, job_id: Seq<char>)
    requires
        forall|i: int| 0 <= i < entries.len() ==> (#[trigger] entries[i]).job_id@ != job_id,
    ensures
        entry_token(entries, job_id) is None,
    decreases entries.len(),
{
    if entries.len() > 0 {
        assert forall|i: int| 0 <= i < entries.skip(1).len() implies (
        #[trigger] entries.skip(1)[i]).job_id@ != job_id by {
            assert(entries.skip(1)[i] == entries[i + 1]);
        }
        lemma_entry_missing(entries.skip(1), job_id);
    }
}

/// Whether no job has two entries.
spec fn distinct_jobs(entries: Seq<Entry>) -> bool {
    forall|i: int, j: int|
        0 <= i < j < entries.len() ==> (#[trigger] entries[i]).job_id@ != (
        #[trigger] entries[j]).job_id@
}

/// Whether an entry has this token.
spec fn has_token(entries: Seq<Entry>, token: int) -> bool {
    exists|k: int| 0 <= k < entries.len() && (#[trigger] entries[k]).token == token
}

/// What became of a request that was put into the queue.
#[derive(Clone, Copy, PartialEq, Eq, Structural, Debug)]
pub enum Sent {
    Accepted,
    Full,
    Closed,
}

/// The books of the download service. A job that can be cancelled has a token, and each token a
/// flag that says whether its job was cancelled.
pub struct DownloadService {
    entries: Vec<Entry>,
    flags: Vec<bool>,
    open: bool,
    shutdown: bool,
}

impl DownloadService {
    /// The token of a job.
    pub closed spec fn token(self, job_id: Seq<char>) -> Option<int> {
        entry_token(self.entries@, job_id)
    }

    /// The flags, by token.
    pub closed spec fn flagged(self) -> Seq<bool> {
        self.flags@
    }

    /// Whether requests are taken.
    pub closed spec fn accepting(self) -> bool {
        self.open
    }

    /// Whether everything is to stop.
    pub closed spec fn stopping(self) -> bool {
        self.shutdown
    }

    /// Whether each job has one token, and each token a flag.
    pub closed spec fn well_formed(self) -> bool {
        &&& distinct_jobs(self.entries@)
        &&& forall|i: int|
            0 <= i < self.entries@.len() ==> (#[trigger] self.entries@[i]).token < self.flags@.len()
    }

    /// Whether some job has this token.
    pub open spec fn listed(self, token: int) -> bool {
        exists|job_id: Seq<char>| #[trigger] self.token(job_id) == Some(token)
    }

    /// The token of a job has a flag.
    pub proof fn lemma_token_flagged(self, job_id: Seq<char>)
        requires
            self.well_formed(),
            self.token(job_id) is Some,
        ensures
            0 <= self.token(job_id)->0 < self.flagged().len(),
    {
        if forall|i: int|
            0 <= i < self.entries@.len() ==> (#[trigger] self.entries@[i]).job_id@ != job_id {
            lemma_entry_missing(self.entries@, job_id);
        } else {
            let i = choose|i: int|
                0 <= i < self.entries@.len() && (#[trigger] self.entries@[i]).job_id@ == job_id;
            lemma_entry_found(self.entries@, i);
        }
    }

    /// A service without jobs, and the number of its workers: `workers`, at least one and at most
    /// eight.
    pub fn start(workers: usize) -> (result: (Self, usize))
        ensures
            result.0.well_formed(),
            result.0.accepting(),
            !result.0.stopping(),
            result.0.flagged().len() == 0,
            forall|job_id: Seq<char>| result.0.token(job_id) is None,
            result.1 == if workers < 1 {
                1
            } else if workers > 8 {
                8
            } else {
                workers as int
            },
    {
        let count: usize = if workers < 1 {
            1
        } else if workers > 8 {
            8
        } else {
            workers
        };
        let service = DownloadService {
            entries: Vec::new(),
            flags: Vec::new(),
            open: true,
            shutdown: false,
        };
        (service, count)
    }

    fn find(&self, job_id: &str) -> (result: Option<usize>)
        requires
            self.well_formed(),
        ensures
            match result {
                Some(at) => at < self.entries@.len() && self.entries@[at as int].job_id@ == job_id@
                    && self.token(job_id@) == Some(self.entries@[at as int].token as int)
                    && self.entries@[at as int].token < self.flags@.len(),
                None => self.token(job_id@) is None && forall|i: int|
                    0 <= i < self.entries@.len() ==> (#[trigger] self.entries@[i]).job_id@
                        != job_id@,
            },
    {
        let mut i: usize = 0;
        while i < self.entries.len()
            invariant
                self.well_formed(),
                i <= self.entries@.len(),
                forall|k: int| 0 <= k < i ==> (#[trigger] self.entries@[k]).job_id@ != job_id@,
            decreases self.entries@.len() - i,
        {
            if text::same_text(self.entries[i].job_id.as_str(), job_id) {
                proof {
                    lemma_entry_found(self.entries@, i as int);
                }
                return Some(i);
            }
            i += 1;
        }
        proof {
            lemma_entry_missing(self.entries@, job_id@);
        }
        None
    }

    fn forget(&mut self, job_id: &str)
        requires
            old(self).well_formed(),
        ensures
            final(self).well_formed(),
            final(self).flagged() == old(self).flagged(),
            final(self).accepting() == old(self).accepting(),
            final(self).stopping() == old(self).stopping(),
            forall|j: Seq<char>|
                #[trigger] final(self).token(j) == if j == job_id@ {
                    None
                } else {
                    old(self).token(j)
                },
    {
        let ghost before = self.entries@;
        match self.find(job_id) {
            Some(at) => {
                self.entries.remove(at);
                proof {
                    let after = self.entries@;
                    assert forall|i: int| 0 <= i < after.len() implies (
                    #[trigger] after[i]).job_id@ != job_id@ by {
                        if i < at {
                            assert(after[i] == before[i]);
                        } else {
                            assert(after[i] == before[i + 1]);
                        }
                    }
                    assert(distinct_jobs(after)) by {
                        assert forall|i: int, j: int| 0 <= i < j < after.len() implies (
                        #[trigger] after[i]).job_id@ != (#[trigger] after[j]).job_id@ by {
                            let a = if i < at {
                                i
                            } else {
                                i + 1
                            };
                            let b = if j < at {
                                j
                            } else {
                                j + 1
                            };
                            assert(after[i] == before[a] && after[j] == before[b]);
                        }
                    }
                    assert forall|i: int| 0 <= i < after.len() implies (#[trigger] after[i]).token
                        < self.flags@.len() by {
                        if i < at {
                            assert(after[i] == before[i]);
                        } else {
                            assert(after[i] == before[i + 1]);
                        }
                    }
                    lemma_entry_missing(after, job_id@);
                    assert forall|j: Seq<char>| j != job_id@ implies #[trigger] entry_token(
                        after,
                        j,
                    ) == entry_token(before, j) by {
                        lemma_entry_removed(before, at as int, j);
                        assert(after == before.remove(at as int));
                    }
                }
            },
            None => {},
        }
    }

    fn grant(&mut self, job_id: &str) -> (result: usize)
        requires
            old(self).well_formed(),
        ensures
            final(self).well_formed(),
            result == old(self).flagged().len(),
            final(self).flagged() == old(self).flagged().push(false),
            final(self).accepting() == old(self).accepting(),
            final(self).stopping() == old(self).stopping(),
            forall|j: Seq<char>|
                #[trigger] final(self).token(j) == if j == job_id@ {
                    Some(result as int)
                } else {
                    old(self).token(j)
                },
    {
        self.forget(job_id);
        let token: usize = self.flags.len();
        let ghost forgetting = *self;
        let ghost before = self.entries@;
        proof {
            lemma_all_missing(*self, job_id@);
        }
        self.flags.push(false);
        self.entries.push(Entry { job_id: job_id.to_owned(), token });
        proof {
            let after = self.entries@;
            assert(after =~= before.push(after.last()));
            assert forall|i: int| 0 <= i < after.len() implies (#[trigger] after[i]).token
                < self.flags@.len() by {
                if i < before.len() {
                    assert(after[i] == before[i]);
                }
            }
            assert(distinct_jobs(after)) by {
                assert forall|i: int, j: int| 0 <= i < j < after.len() implies (
                #[trigger] after[i]).job_id@ != (#[trigger] after[j]).job_id@ by {
                    assert(after[i] == before[i]);
                    if j < before.len() {
                        assert(after[j] == before[j]);
                    }
                }
            }
            lemma_entry_found(after, before.len() as int);
            assert forall|j: Seq<char>| j != job_id@ implies #[trigger] entry_token(after, j)
                == old(self).token(j) by {
                lemma_entry_pushed(before, after.last(), j);
                assert(forgetting.token(j) == old(self).token(j));
            }
        }
        token
    }

    /// Notes a job before its request is put into the queue, so that it can be cancelled while it
    /// waits.
    pub fn enqueue(&mut self, job_id: &str) -> (result: Result<usize, String>)
        requires
            old(self).well_formed(),
        ensures
            final(self).well_formed(),
            final(self).accepting() == old(self).accepting(),
            final(self).stopping() == old(self).stopping(),
            match result {
                Ok(token) => old(self).accepting() && token == old(self).flagged().len() && final(
                    self).flagged() == old(self).flagged().push(false) && forall|j: Seq<char>|
                    #[trigger] final(self).token(j) == if j == job_id@ {
                        Some(token as int)
                    } else {
                        old(self).token(j)
                    },
                Err(message) => !old(self).accepting() && *final(self) == *old(self) && message@
                    == "servico de downloads encerrado"@,
            },
    {
        if !self.open {
            return Err("servico de downloads encerrado".to_owned());
        }
        Ok(self.grant(job_id))
    }

    /// Takes note of what became of a request; a job whose request was not taken is forgotten.
    pub fn sent(&mut self, job_id: &str, outcome: Sent) -> (result: Result<(), String>)
        requires
            old(self).well_formed(),
        ensures
            final(self).well_formed(),
            final(self).flagged() == old(self).flagged(),
            final(self).accepting() == old(self).accepting(),
            final(self).stopping() == old(self).stopping(),
            forall|j: Seq<char>|
                #[trigger] final(self).token(j) == if j == job_id@ && outcome != Sent::Accepted {
                    None
                } else {
                    old(self).token(j)
                },
            match result {
                Ok(()) => outcome == Sent::Accepted,
                Err(message) => match outcome {
                    Sent::Accepted => false,
                    Sent::Full => message@ == "fila cheia; limite de "@ + text::decimal_text(
                        MAX_QUEUED_DOWNLOADS as nat,
                    ) + " downloads pendentes"@,
                    Sent::Closed => message@ == "servico de downloads encerrado"@,
                },
            },
    {
        match outcome {
            Sent::Accepted => Ok(()),
            Sent::Full => {
                self.forget(job_id);
                let mut message = "fila cheia; limite de ".to_owned();
                message.push_str(text::decimal(MAX_QUEUED_DOWNLOADS as u64).as_str());
                message.push_str(" downloads pendentes");
                Err(message)
            },
            Sent::Closed => {
                self.forget(job_id);
                Err("servico de downloads encerrado".to_owned())
            },
        }
    }

    /// Cancels a job; the result says whether there is such a job.
    pub fn cancel(&mut self, job_id: &str) -> (result: bool)
        requires
            old(self).well_formed(),
        ensures
            final(self).well_formed(),
            final(self).accepting() == old(self).accepting(),
            final(self).stopping() == old(self).stopping(),
            forall|j: Seq<char>| #[trigger] final(self).token(j) == old(self).token(j),
            result == old(self).token(job_id@) is Some,
            final(self).flagged() == match old(self).token(job_id@) {
                Some(token) => old(self).flagged().update(token, true),
                None => old(self).flagged(),
            },
    {
        match self.find(job_id) {
            Some(at) => {
                let token: usize = self.entries[at].token;
                self.flags.set(token, true);
                true
            },
            None => false,
        }
    }

    /// The token under which a worker handles a job: a fresh one where the job has none.
    pub fn claim(&mut self, job_id: &str) -> (result: usize)
        requires
            old(self).well_formed(),
        ensures
            final(self).well_formed(),
            final(self).accepting() == old(self).accepting(),
            final(self).stopping() == old(self).stopping(),
            forall|j: Seq<char>| #[trigger] final(self).token(j) == old(self).token(j),
            match old(self).token(job_id@) {
                Some(token) => result == token && final(self).flagged() == old(self).flagged(),
                None => result == old(self).flagged().len() && final(self).flagged() == old(self).flagged().push(false),
            },
            result < final(self).flagged().len(),
    {
        match self.find(job_id) {
            Some(at) => self.entries[at].token,
            None => {
                let token: usize = self.flags.len();
                self.flags.push(false);
                token
            },
        }
    }

    /// Whether the work under a token has to stop.
    pub fn stopped(&self, token: usize) -> (result: bool)
        requires
            token < self.flagged().len(),
        ensures
            result == (self.flagged()[token as int] || self.stopping()),
    {
        self.flags[token] || self.shutdown
    }

    /// What a worker reports of a job before it begins: a job that was cancelled while it waited
    /// is not begun.
    pub fn begin(&mut self, job_id: &str, token: usize) -> (result: Option<DownloadEvent>)
        requires
            old(self).well_formed(),
            token < old(self).flagged().len(),
        ensures
            final(self).well_formed(),
            final(self).flagged() == old(self).flagged(),
            final(self).accepting() == old(self).accepting(),
            final(self).stopping() == old(self).stopping(),
            match result {
                Some(event) => old(self).flagged()[token as int] && event@ == (
                DownloadEventView::Cancelled { job_id: job_id@ }),
                None => !old(self).flagged()[token as int],
            },
            forall|j: Seq<char>|
                #[trigger] final(self).token(j) == if j == job_id@ && result is Some {
                    None
                } else {
                    old(self).token(j)
                },
    {
        if self.flags[token] {
            self.forget(job_id);
            Some(DownloadEvent::Cancelled { job_id: job_id.to_owned() })
        } else {
            None
        }
    }

    /// What a worker reports of a job that has ended, `error` being what went wrong; the job is
    /// forgotten.
    pub fn finish(&mut self, job_id: &str, token: usize, error: Option<String>) -> (result: Option<
        DownloadEvent,
    >)
        requires
            old(self).well_formed(),
            token < old(self).flagged().len(),
        ensures
            final(self).well_formed(),
            final(self).flagged() == old(self).flagged(),
            final(self).accepting() == old(self).accepting(),
            final(self).stopping() == old(self).stopping(),
            forall|j: Seq<char>|
                #[trigger] final(self).token(j) == if j == job_id@ {
                    None
                } else {
                    old(self).token(j)
                },
            match text::shown(error) {
                None => result is None,
                Some(message) => result is Some && result->0@ == if old(self).flagged()[token as int] {
                    DownloadEventView::Cancelled { job_id: job_id@ }
                } else {
                    DownloadEventView::Failed { job_id: job_id@, error: message }
                },
            },
    {
        self.forget(job_id);
        match error {
            None => None,
            Some(error) => {
                if self.flags[token] {
                    Some(DownloadEvent::Cancelled { job_id: job_id.to_owned() })
                } else {
                    Some(DownloadEvent::Failed { job_id: job_id.to_owned(), error })
                }
            },
        }
    }

    /// Stops taking requests and cancels every job.
    pub fn close(&mut self)
        requires
            old(self).well_formed(),
        ensures
            final(self).well_formed(),
            !final(self).accepting(),
            final(self).stopping(),
            forall|j: Seq<char>| #[trigger] final(self).token(j) == old(self).token(j),
            final(self).flagged().len() == old(self).flagged().len(),
            forall|t: int|
                0 <= t < old(self).flagged().len() ==> (#[trigger] final(self).flagged()[t] <==> old(
                    self).flagged()[t] || old(self).listed(t)),
    {
        self.open = false;
        self.shutdown = true;
        let ghost entries = self.entries@;
        let ghost flags = self.flags@;
        let mut i: usize = 0;
        while i < self.entries.len()
            invariant
                self.well_formed(),
                !self.open,
                self.shutdown,
                self.entries@ == entries,
                self.flags@.len() == flags.len(),
                i <= entries.len(),
                forall|t: int| 0 <= t < flags.len() && flags[t] ==> #[trigger] self.flags@[t],
                forall|k: int| 0 <= k < i ==> self.flags@[(#[trigger] entries[k]).token as int],
                forall|t: int|
                    0 <= t < flags.len() && #[trigger] self.flags@[t] ==> flags[t] || has_token(
                        entries,
                        t,
                    ),
            decreases entries.len() - i,
        {
            let token: usize = self.entries[i].token;
            self.flags.set(token, true);
            assert(entries[i as int].token == token);
            assert(has_token(entries, token as int));
            i += 1;
        }
        proof {
            assert forall|t: int| 0 <= t < flags.len() && has_token(entries, t) implies old(
                self).listed(t) by {
                let k = choose|k: int|
                    0 <= k < entries.len() && (#[trigger] entries[k]).token == t;
                lemma_entry_found(entries, k);
                assert(old(self).token(entries[k].job_id@) == Some(t));
            }
            assert forall|j: Seq<char>| (#[trigger] old(self).token(j)) is Some implies self.flags@[
            old(self).token(j)->0] by {
                if forall|k: int| 0 <= k < entries.len() ==> (#[trigger] entries[k]).job_id@ != j {
                    lemma_entry_missing(entries, j);
                } else {
                    let k = choose|k: int|
                        0 <= k < entries.len() && (#[trigger] entries[k]).job_id@ == j;
                    lemma_entry_found(entries, k);
                }
            }
        }
    }
}

proof fn lemma_all_missing(service: DownloadService, job_id: Seq<char>)
    requires
        service.well_formed(),
        service.token(job_id) is None,
    ensures
        forall|i: int|
            0 <= i < service.entries@.len() ==> (#[trigger] service.entries@[i]).job_id@ != job_id,
{
    assert forall|i: int| 0 <= i < service.entries@.len() implies (
    #[trigger] service.entries@[i]).job_id@ != job_id by {
        lemma_entry_found(service.entries@, i);
    }
}

proof fn lemma_entry_removed(entries: Seq<Entry>, at: int, job_id: Seq<char>)
    requires
        0 <= at < entries.len(),
        entries[at].job_id@ != job_id,
    ensures
        entry_token(entries.remove(at), job_id) == entry_token(entries, job_id),
    decreases entries.len(),
{
    let rest = entries.remove(at);
    if at == 0 {
        assert(rest =~= entries.skip(1));
    } else {
        assert(rest[0] == entries[0]);
        assert(rest.skip(1) =~= entries.skip(1).remove(at - 1));
        assert(entries.skip(1)[at - 1] == entries[at]);
        lemma_entry_removed(entries.skip(1), at - 1, job_id);
    }
}

proof fn lemma_entry_pushed(entries: Seq<Entry>, entry: Entry, job_id: Seq<char>)
    requires
        entry.job_id@ != job_id,
    ensures
        entry_token(entries.push(entry), job_id) == entry_token(entries, job_id),
    decreases entries.len(),
{
    let longer = entries.push(entry);
    if entries.len() == 0 {
        assert(longer.skip(1) =~= Seq::<Entry>::empty());
        assert(entry_token(longer.skip(1), job_id) is None);
    } else {
        assert(longer[0] == entries[0]);
        assert(longer.skip(1) =~= entries.skip(1).push(entry));
        lemma_entry_pushed(entries.skip(1), entry, job_id);
    }
}

/// Data that holds nothing but letters, digits, `-` and `_` is its own name as long as it has no
/// more than 96 characters; data that holds none of these is called unknown; and whatever else stands
/// around a harmless character does not change the name.
pub proof fn lemma_harmless_kept(value: Seq<char>, other: char)
    requires
        !(('a' <= other && other <= 'z') || ('A' <= other && other <= 'Z') || ('0' <= other && other
            <= '9') || other == '-' || other == '_'),
    ensures
        0 < value.len() <= 96 && (forall|i: int|
            0 <= i < value.len() ==> (('a' <= #[trigger] value[i] && value[i] <= 'z') || ('A'
                <= value[i] && value[i] <= 'Z') || ('0' <= value[i] && value[i] <= '9') || value[i]
                == '-' || value[i] == '_')) ==> safe_name(value) == value,
        safe_name(value.push(other)) == safe_name(value),
        safe_name(Seq::empty()) == "unknown"@,
{
    lemma_harmless_push(value, other);
    reveal(Seq::filter);
    if forall|i: int| 0 <= i < value.len() ==> harmless(#[trigger] value[i]) {
        lemma_all_harmless(value);
    }
}

proof fn lemma_all_harmless(value: Seq<char>)
    requires
        forall|i: int| 0 <= i < value.len() ==> harmless(#[trigger] value[i]),
    ensures
        harmless_part(value) == value,
    decreases value.len(),
{
    if value.len() > 0 {
        let rest = value.drop_last();
        lemma_all_harmless(rest);
        lemma_harmless_push(rest, value.last());
        assert(rest.push(value.last()) =~= value);
    } else {
        reveal(Seq::filter);
        assert(harmless_part(value) =~= value);
    }
}

/// What a download is bounded by: 512 requests may wait, a fetched file may have 1 GiB, 2 GiB have to
/// be free, and fetching may take two hours and converting half an hour.
pub proof fn lemma_download_limits()
    ensures
        MAX_QUEUED_DOWNLOADS == 512,
        MAX_INPUT_BYTES == 1024 * 1024 * 1024,
        MIN_DOWNLOAD_FREE_BYTES == 2 * MAX_INPUT_BYTES,
        DOWNLOAD_TIMEOUT_SECONDS == 2 * 60 * 60,
        CONVERSION_TIMEOUT_SECONDS == 30 * 60,
{
}

} // verus!
