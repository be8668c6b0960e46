use vstd::prelude::*;

verus! {

/// Most messages the log keeps; older ones are dropped first.
pub const LOG_CAPACITY: usize = 1000;

/// The message list after `messages` received a new message: when the list
/// grows past the capacity, the oldest message goes.
pub open spec fn keep_latest(messages: Seq<String>) -> Seq<String> {
    if messages.len() > LOG_CAPACITY {
        messages.drop_first()
    } else {
        messages
    }
}

/// The build and run messages shown to the user.
#[derive(Clone)]
pub struct LogPanel {
    logs: Vec<String>,
    auto_scroll: bool,
}

pub struct LogPanelView {
    pub logs: Seq<String>,
    pub auto_scroll: bool,
}

impl View for LogPanel {
    type V = LogPanelView;

    closed spec fn view(&self) -> LogPanelView {
        LogPanelView { logs: self.logs@, auto_scroll: self.auto_scroll }
    }
}

impl Default for LogPanel {
    fn default() -> (p: Self)
        ensures
            p@.logs == Seq::<String>::empty(),
            !p@.auto_scroll,
    {
        LogPanel { logs: Vec::new(), auto_scroll: false }
    }
}

impl LogPanel {
    /// Appends a message, dropping the oldest one when the log is over capacity.
    pub fn add_log(&mut self, message: String)
        ensures
            final(self)@.logs == keep_latest(old(self)@.logs.push(message)),
            final(self)@.auto_scroll == old(self)@.auto_scroll,
    {
        self.logs.push(message);
        if self.logs.len() > LOG_CAPACITY {
            self.logs.remove(0);
            assert(self.logs@ =~= keep_latest(old(self)@.logs.push(message)));
        }
    }

    /// Asks the panel to scroll to the newest message when it is next drawn.
    pub fn auto_scroll(&mut self)
        ensures
            final(self)@.auto_scroll,
            final(self)@.logs == old(self)@.logs,
    {
        self.auto_scroll = true;
    }

    /// Whether a scroll was asked for; the request is consumed.
    pub fn take_auto_scroll(&mut self) -> (pending: bool)
        ensures
            pending == old(self)@.auto_scroll,
            !final(self)@.auto_scroll,
            final(self)@.logs == old(self)@.logs,
    {
        let pending = self.auto_scroll;
        self.auto_scroll = false;
        pending
    }

    /// Drops every message.
    pub fn clear_logs(&mut self)
        ensures
            final(self)@.logs == Seq::<String>::empty(),
            final(self)@.auto_scroll == old(self)@.auto_scroll,
    {
        self.logs.clear();
    }

    /// The messages, oldest first.
    pub fn logs(&self) -> (l: &[String])
        ensures
            l@ == self@.logs,
    {
        self.logs.as_slice()
    }
}

/// The message a build leaves: success, or the assembler's error.
pub open spec fn build_message(outcome: Result<(), String>) -> Seq<char> {
    match outcome {
        Ok(()) => "Assembly successful"@,
        Err(e) => "Error: "@ + e@,
    }
}

impl LogPanel {
    /// Reports a build: the log is scrolled to the end and left holding
    /// the one message of the build.
    pub fn report_build(&mut self, outcome: Result<(), String>)
        ensures
            final(self)@.auto_scroll,
            final(self)@.logs.len() == 1,
            final(self)@.logs[0]@ == build_message(outcome),
    {
        self.auto_scroll();
        let message = match outcome {
            Ok(()) => "Assembly successful".to_owned(),
            Err(e) => {
                let mut m = "Error: ".to_owned();
                m.append(e.as_str());
                m
            },
        };
        self.clear_logs();
        self.add_log(message);
    }
}

/// A log that is within capacity stays within capacity after a message is
/// added, and the message added is the newest one it holds.
pub proof fn lemma_log_bounded(messages: Seq<String>, message: String)
    requires
        messages.len() <= LOG_CAPACITY,
    ensures
        keep_latest(messages.push(message)).len() <= LOG_CAPACITY,
        keep_latest(messages.push(message)).last() == message,
{
}

/// While the log is below capacity nothing is dropped: the messages are kept
/// in the order they were added.
pub proof fn lemma_log_keeps_order(messages: Seq<String>, message: String)
    requires
        messages.len() < LOG_CAPACITY,
    ensures
        keep_latest(messages.push(message)) == messages.push(message),
{
}

} // verus!
