use vstd::prelude::*;

use crate::ids::uuid_hyphenated_of;
use crate::ids::JobId;

verus! {

/// Job logs: the items a running container emits, their rendering, and
/// the receiver that drains one job's log stream.
///
/// The receiver accumulates every rendered item in arrival order.  At the
/// end of the stream it returns the newline-joined log; the chunk handed
/// out for the log file after each item is the rendered item plus one
/// trailing newline, so the file holds the same bytes as the joined log
/// plus a final newline.

/// The decimal digit `d` as a character.
pub open spec fn digit_char_of(d: u64) -> char {
    if d == 0 {
        '0'
    } else if d == 1 {
        '1'
    } else if d == 2 {
        '2'
    } else if d == 3 {
        '3'
    } else if d == 4 {
        '4'
    } else if d == 5 {
        '5'
    } else if d == 6 {
        '6'
    } else if d == 7 {
        '7'
    } else if d == 8 {
        '8'
    } else {
        '9'
    }
}

/// The decimal rendering of `n`, most significant digit first.
pub open spec fn decimal_of(n: u64) -> Seq<char>
    decreases n,
{
    if n < 10 {
        seq![digit_char_of(n)]
    } else {
        decimal_of(n / 10).push(digit_char_of(n % 10))
    }
}

fn digit_str(d: u64) -> (r: &'static str)
    requires
        d < 10,
    ensures
        r@ == seq![digit_char_of(d)],
{
    proof {
        reveal_strlit("0");
        reveal_strlit("1");
        reveal_strlit("2");
        reveal_strlit("3");
        reveal_strlit("4");
        reveal_strlit("5");
        reveal_strlit("6");
        reveal_strlit("7");
        reveal_strlit("8");
        reveal_strlit("9");
    }
    if d == 0 {
        let r: &'static str = "0";
        proof {
            assert(r@ =~= seq![digit_char_of(d)]);
        }
        r
    } else if d == 1 {
        let r: &'static str = "1";
        proof {
            assert(r@ =~= seq![digit_char_of(d)]);
        }
        r
    } else if d == 2 {
        let r: &'static str = "2";
        proof {
            assert(r@ =~= seq![digit_char_of(d)]);
        }
        r
    } else if d == 3 {
        let r: &'static str = "3";
        proof {
            assert(r@ =~= seq![digit_char_of(d)]);
        }
        r
    } else if d == 4 {
        let r: &'static str = "4";
        proof {
            assert(r@ =~= seq![digit_char_of(d)]);
        }
        r
    } else if d == 5 {
        let r: &'static str = "5";
        proof {
            assert(r@ =~= seq![digit_char_of(d)]);
        }
        r
    } else if d == 6 {
        let r: &'static str = "6";
        proof {
            assert(r@ =~= seq![digit_char_of(d)]);
        }
        r
    } else if d == 7 {
        let r: &'static str = "7";
        proof {
            assert(r@ =~= seq![digit_char_of(d)]);
        }
        r
    } else if d == 8 {
        let r: &'static str = "8";
        proof {
            assert(r@ =~= seq![digit_char_of(d)]);
        }
        r
    } else {
        let r: &'static str = "9";
        proof {
            assert(r@ =~= seq![digit_char_of(d)]);
        }
        r
    }
}

/// Renders `n` in decimal.
pub fn u64_to_decimal(n: u64) -> (r: String)
    ensures
        r@ == decimal_of(n),
    decreases n,
{
    if n < 10 {
        String::from_str(digit_str(n))
    } else {
        let prefix = u64_to_decimal(n / 10);
        let r = prefix.concat(digit_str(n % 10));
        proof {
            assert(r@ =~= decimal_of(n / 10).push(digit_char_of(n % 10)));
        }
        r
    }
}

/// One item of a job's log stream.
#[derive(Debug)]
pub enum LogItem {
    /// One line of build output.
    Line(String),
    /// The job advanced to this position.
    Progress(u64),
    /// The job entered this phase.
    CurrentPhase(String),
    /// The job ended, successfully or not, with a message.
    State(Result<String, String>),
}

/// The rendered form of one log item.
pub open spec fn render_of(item: LogItem) -> Seq<char> {
    match item {
        LogItem::Line(l) => l@,
        LogItem::Progress(u) => "#BUTIDO:PROGRESS:"@ + decimal_of(u),
        LogItem::CurrentPhase(p) => "#BUTIDO:PHASE:"@ + p@,
        LogItem::State(Result::Ok(s)) => "#BUTIDO:STATE:OK:"@ + s@,
        LogItem::State(Result::Err(s)) => "#BUTIDO:STATE:ERR:"@ + s@,
    }
}

impl LogItem {
    /// Renders the item as one log line.
    pub fn render(&self) -> (r: String)
        ensures
            r@ == render_of(*self),
    {
        match self {
            LogItem::Line(l) => l.clone(),
            LogItem::Progress(u) => {
                let prefix: &str = "#BUTIDO:PROGRESS:";
                String::from_str(prefix).concat(u64_to_decimal(*u).as_str())
            },
            LogItem::CurrentPhase(p) => {
                let prefix: &str = "#BUTIDO:PHASE:";
                String::from_str(prefix).concat(p.as_str())
            },
            LogItem::State(Result::Ok(s)) => {
                let prefix: &str = "#BUTIDO:STATE:OK:";
                String::from_str(prefix).concat(s.as_str())
            },
            LogItem::State(Result::Err(s)) => {
                let prefix: &str = "#BUTIDO:STATE:ERR:";
                String::from_str(prefix).concat(s.as_str())
            },
        }
    }
}

/// The newline-join of the rendered lines, in order, with one separator
/// between adjacent lines.
pub open spec fn join_lines(lines: Seq<Seq<char>>) -> Seq<char>
    decreases lines.len(),
{
    if lines.len() == 0 {
        Seq::empty()
    } else if lines.len() == 1 {
        lines[0]
    } else {
        join_lines(lines.drop_last()) + seq!['\n'] + lines.last()
    }
}

/// The bytes the log file receives: every line followed by one newline.
pub open spec fn file_chunks(lines: Seq<Seq<char>>) -> Seq<char>
    decreases lines.len(),
{
    if lines.len() == 0 {
        Seq::empty()
    } else {
        file_chunks(lines.drop_last()) + lines.last() + seq!['\n']
    }
}

/// Log round trip: the log file holds the same characters as the joined
/// log, plus one trailing newline when there is any line at all.
pub proof fn lemma_log_round_trip(lines: Seq<Seq<char>>)
    ensures
        lines.len() == 0 ==> file_chunks(lines) == Seq::<char>::empty(),
        lines.len() > 0 ==> file_chunks(lines) == join_lines(lines) + seq!['\n'],
    decreases lines.len(),
{
    if lines.len() > 1 {
        lemma_log_round_trip(lines.drop_last());
        assert(file_chunks(lines) == file_chunks(lines.drop_last()) + lines.last() + seq!['\n']);
        assert(file_chunks(lines.drop_last()) == join_lines(lines.drop_last()) + seq!['\n']);
        assert(join_lines(lines) == join_lines(lines.drop_last()) + seq!['\n'] + lines.last());
        assert(file_chunks(lines) =~= join_lines(lines) + seq!['\n']);
    } else if lines.len() == 1 {
        assert(lines.drop_last().len() == 0);
        assert(file_chunks(lines) == file_chunks(lines.drop_last()) + lines.last() + seq!['\n']);
        assert(file_chunks(lines) =~= join_lines(lines) + seq!['\n']);
    }
}

/// What the progress bar is told after one log item.
#[derive(Debug)]
pub enum BarEvent {
    /// Advance the bar to this position.
    Position(u64),
    /// Show this phase name.
    Phase(String),
    /// Show a success state with this message.
    StateOk(String),
    /// Show a failure state with this message.
    StateErr(String),
}

/// The receiver of one job's log stream.
pub struct LogReceiver {
    /// The rendered items, in arrival order.
    rendered: Vec<String>,
    /// What the last `State` item said, if any arrived.
    success: Option<bool>,
}

impl LogReceiver {
    pub closed spec fn lines(&self) -> Seq<Seq<char>> {
        self.rendered@.map_values(|s: String| s@)
    }

    pub closed spec fn success_spec(&self) -> Option<bool> {
        self.success
    }

    pub fn new() -> (r: LogReceiver)
        ensures
            r.lines() == Seq::<Seq<char>>::empty(),
            r.success_spec() is None,
    {
        let r = LogReceiver { rendered: Vec::new(), success: Option::None };
        proof {
            assert(r.lines() =~= Seq::<Seq<char>>::empty());
        }
        r
    }

    /// Consumes one log item: appends its rendering to the accumulator,
    /// notes a terminal state, and returns the chunk to append to the log
    /// file together with what to tell the progress bar.
    pub fn receive(&mut self, item: LogItem) -> (r: (String, Option<BarEvent>))
        ensures
            final(self).lines() == old(self).lines().push(render_of(item)),
            final(self).success_spec() == match item {
                LogItem::State(Result::Ok(_)) => Option::Some(true),
                LogItem::State(Result::Err(_)) => Option::Some(false),
                _ => old(self).success_spec(),
            },
            r.0@ == render_of(item) + seq!['\n'],
            match item {
                LogItem::Line(_) => r.1 is None,
                LogItem::Progress(u) => r.1 matches Some(BarEvent::Position(p)) && p == u,
                LogItem::CurrentPhase(p) => r.1 matches Some(BarEvent::Phase(q)) && q@ == p@,
                LogItem::State(Result::Ok(m)) => r.1 matches Some(BarEvent::StateOk(q)) && q@
                    == m@,
                LogItem::State(Result::Err(m)) => r.1 matches Some(BarEvent::StateErr(q)) && q@
                    == m@,
            },
    {
        let line = item.render();
        let newline: &str = "\n";
        proof {
            reveal_strlit("\n");
        }
        let chunk = line.clone().concat(newline);
        proof {
            assert(chunk@ =~= render_of(item) + seq!['\n']);
        }
        let event = match &item {
            LogItem::Line(_) => Option::None,
            LogItem::Progress(u) => Option::Some(BarEvent::Position(*u)),
            LogItem::CurrentPhase(p) => Option::Some(BarEvent::Phase(p.clone())),
            LogItem::State(Result::Ok(m)) => {
                self.success = Option::Some(true);
                Option::Some(BarEvent::StateOk(m.clone()))
            },
            LogItem::State(Result::Err(m)) => {
                self.success = Option::Some(false);
                Option::Some(BarEvent::StateErr(m.clone()))
            },
        };
        let ghost prev = self.rendered@;
        self.rendered.push(line);
        proof {
            prev.lemma_push_map_commute(|s: String| s@, self.rendered@[prev.len() as int]);
        }
        (chunk, event)
    }

    /// Ends the stream: returns the newline-joined log in arrival order
    /// and what the last terminal state said — nothing, when no state
    /// item arrived, leaves the job's outcome indeterminate.
    pub fn finish(self) -> (r: (String, Option<bool>))
        ensures
            r.0@ == join_lines(self.lines()),
            r.1 == self.success_spec(),
    {
        let newline: &str = "\n";
        proof {
            reveal_strlit("\n");
        }
        let mut joined = String::new();
        let n = self.rendered.len();
        if n == 0 {
            proof {
                assert(joined@ =~= join_lines(self.lines()));
            }
            return (joined, self.success);
        }
        joined = self.rendered[0].clone();
        let mut i: usize = 1;
        proof {
            assert(self.lines().take(1) =~= seq![self.lines()[0]]);
        }
        while i < n
            invariant
                1 <= i <= n,
                n == self.rendered@.len(),
                joined@ == join_lines(self.lines().take(i as int)),
                newline@ == seq!['\n'],
            decreases n - i,
        {
            joined = joined.concat(newline).concat(self.rendered[i].as_str());
            proof {
                let lines = self.lines();
                let pre = lines.take(i as int + 1);
                assert(pre.drop_last() =~= lines.take(i as int));
                assert(pre.last() == lines[i as int]);
                assert(joined@ =~= join_lines(pre));
            }
            i = i + 1;
        }
        proof {
            assert(self.lines().take(n as int) =~= self.lines());
        }
        (joined, self.success)
    }
}

/// The path of one job's log file: the log directory, a separator, the
/// hyphenated job identifier, and the `.log` suffix.
pub fn log_file_path(log_dir: &str, job: &JobId) -> (r: String)
    ensures
        r@ == log_dir@ + seq!['/'] + uuid_hyphenated_of(job.bits) + ".log"@,
{
    let sep: &str = "/";
    let suffix: &str = ".log";
    proof {
        reveal_strlit("/");
    }
    let r = String::from_str(log_dir).concat(sep).concat(job.hyphenated().as_str()).concat(suffix);
    proof {
        assert(r@ =~= log_dir@ + seq!['/'] + uuid_hyphenated_of(job.bits) + ".log"@);
    }
    r
}

} // verus!
