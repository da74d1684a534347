//! Counts of what senders and receivers do, for profiling.

use vstd::prelude::*;

verus! {

/// How often messages were tried, polled and done, on each side. The counts wrap around.
#[derive(Debug, Clone, Copy, PartialEq, Eq, Structural)]
pub struct ChannelStats {
    pub tx_try: usize,
    pub tx_poll: usize,
    pub tx_done: usize,
    pub rx_try: usize,
    pub rx_poll: usize,
    pub rx_done: usize,
}

/// A count, or one count for each of another.
#[derive(Debug, Clone, Copy, PartialEq, Eq, Structural)]
pub enum Average {
    Count(usize),
    Per(usize, usize),
}

/// The counts of one side as they are reported.
#[derive(Debug, Clone, Copy, PartialEq, Eq, Structural)]
pub struct SideReport {
    /// Tries for each poll.
    pub tries: Average,
    /// Polls for each message that was done.
    pub polls: Average,
    pub done: usize,
}

/// What the counts of one side come to: as long as no message was done, there
/// is nothing to relate them to.
pub open spec fn side_report(tries: usize, polls: usize, done: usize) -> SideReport {
    if done > 0 {
        SideReport { tries: Average::Per(tries, polls), polls: Average::Per(polls, done), done }
    } else {
        SideReport { tries: Average::Count(tries), polls: Average::Count(polls), done }
    }
}

/// The sum of two counts, which wraps around.
pub open spec fn wrapping_sum(a: usize, b: usize) -> usize {
    if a + b > usize::MAX {
        (a + b - usize::MAX - 1) as usize
    } else {
        (a + b) as usize
    }
}

fn report_side(tries: usize, polls: usize, done: usize) -> (report: SideReport)
    ensures
        report == side_report(tries, polls, done),
{
    if done > 0 {
        SideReport { tries: Average::Per(tries, polls), polls: Average::Per(polls, done), done }
    } else {
        SideReport { tries: Average::Count(tries), polls: Average::Count(polls), done }
    }
}

impl Default for ChannelStats {
    fn default() -> (stats: Self)
        ensures
            stats == ChannelStats::zero(),
    {
        ChannelStats { tx_try: 0, tx_poll: 0, tx_done: 0, rx_try: 0, rx_poll: 0, rx_done: 0 }
    }
}

impl ChannelStats {
    pub open spec fn zero() -> ChannelStats {
        ChannelStats { tx_try: 0, tx_poll: 0, tx_done: 0, rx_try: 0, rx_poll: 0, rx_done: 0 }
    }

    /// The counts of the senders and of the receivers, as they are reported.
    pub fn report(&self) -> (sides: (SideReport, SideReport))
        ensures
            sides.0 == side_report(self.tx_try, self.tx_poll, self.tx_done),
            sides.1 == side_report(self.rx_try, self.rx_poll, self.rx_done),
    {
        (
            report_side(self.tx_try, self.tx_poll, self.tx_done),
            report_side(self.rx_try, self.rx_poll, self.rx_done),
        )
    }

    /// Starts over.
    pub fn clear(&mut self)
        ensures
            *final(self) == ChannelStats::zero(),
    {
        self.tx_try = 0;
        self.rx_try = 0;
        self.tx_poll = 0;
        self.rx_poll = 0;
        self.tx_done = 0;
        self.rx_done = 0;
    }

    /// A sender polled once, and tried `retry` times.
    pub fn tx_poll(&mut self, retry: usize)
        ensures
            *final(self) == (ChannelStats {
                tx_try: wrapping_sum(old(self).tx_try, retry),
                tx_poll: wrapping_sum(old(self).tx_poll, 1),
                ..*old(self)
            }),
    {
        self.tx_try = self.tx_try.wrapping_add(retry);
        self.tx_poll = self.tx_poll.wrapping_add(1);
    }

    /// A receiver polled once, and tried `retry` times.
    pub fn rx_poll(&mut self, retry: usize)
        ensures
            *final(self) == (ChannelStats {
                rx_try: wrapping_sum(old(self).rx_try, retry),
                rx_poll: wrapping_sum(old(self).rx_poll, 1),
                ..*old(self)
            }),
    {
        self.rx_try = self.rx_try.wrapping_add(retry);
        self.rx_poll = self.rx_poll.wrapping_add(1);
    }

    /// A sender is done with a message.
    pub fn tx_done(&mut self)
        ensures
            *final(self) == (ChannelStats {
                tx_done: wrapping_sum(old(self).tx_done, 1),
                ..*old(self)
            }),
    {
        self.tx_done = self.tx_done.wrapping_add(1);
    }

    /// A receiver is done with a message.
    pub fn rx_done(&mut self)
        ensures
            *final(self) == (ChannelStats {
                rx_done: wrapping_sum(old(self).rx_done, 1),
                ..*old(self)
            }),
    {
        self.rx_done = self.rx_done.wrapping_add(1);
    }
}

/// Counts go up by what is added, and start over at the greatest count.
pub proof fn law_counts_wrap(a: usize, b: usize)
    ensures
        a + b <= usize::MAX ==> wrapping_sum(a, b) == a + b,
        a + b > usize::MAX ==> wrapping_sum(a, b) + usize::MAX + 1 == a + b,
{
}

/// A side is reported by its tries for each poll and its polls for each message, once there
/// is a message; before that by what it counted.
pub proof fn law_side_reported(tries: usize, polls: usize, done: usize)
    ensures
        side_report(tries, polls, done).done == done,
        done > 0 ==> side_report(tries, polls, done).tries == Average::Per(tries, polls)
            && side_report(tries, polls, done).polls == Average::Per(polls, done),
        done == 0 ==> side_report(tries, polls, done).tries == Average::Count(tries)
            && side_report(tries, polls, done).polls == Average::Count(polls),
{
}

/// Nothing is counted at first.
pub proof fn law_starts_at_zero()
    ensures
        ({
            let zero = ChannelStats::zero();
            &&& zero.tx_try == 0 && zero.tx_poll == 0 && zero.tx_done == 0
            &&& zero.rx_try == 0 && zero.rx_poll == 0 && zero.rx_done == 0
        }),
{
}

} // verus!
