//! Settings and decisions for retried network operations, and the state of
//! the terminal progress displays. Timing values are plain seconds; the
//! waiting, the I/O and the drawing happen outside the library.

use vstd::prelude::*;

verus! {

/// Configuration for network operations. All delays and timeouts are in
/// seconds.
#[derive(Debug, Clone)]
pub struct NetworkConfig {
    /// Maximum number of attempts before giving up.
    pub max_retries: u32,
    /// Delay before the first retry; doubled after each failure.
    pub initial_retry_delay: u64,
    /// Upper bound on the delay between retries.
    pub max_retry_delay: u64,
    /// Connection timeout.
    pub connect_timeout: u64,
    /// Read timeout.
    pub read_timeout: u64,
}

impl Default for NetworkConfig {
    /// Three attempts, one second initial delay, half a minute delay cap
    /// and connect timeout, one minute read timeout.
    fn default() -> (r: NetworkConfig)
        ensures
            r.max_retries == 3,
            r.initial_retry_delay == 1,
            r.max_retry_delay == 30,
            r.connect_timeout == 30,
            r.read_timeout == 60,
    {
        NetworkConfig {
            max_retries: 3,
            initial_retry_delay: 1,
            max_retry_delay: 30,
            connect_timeout: 30,
            read_timeout: 60,
        }
    }
}

impl NetworkConfig {
    /// Whether another attempt should follow a failure, given how many
    /// attempts have been made.
    pub fn should_retry(&self, attempts: u32) -> (r: bool)
        ensures
            r == (attempts < self.max_retries),
    {
        attempts < self.max_retries
    }

    /// The exponential-backoff delay that follows `delay`: doubled, capped
    /// at the configured maximum.
    pub fn next_retry_delay(&self, delay: u64) -> (r: u64)
        ensures
            r == if 2 * (delay as int) <= (self.max_retry_delay as int) {
                2 * (delay as int)
            } else {
                self.max_retry_delay as int
            },
    {
        match delay.checked_mul(2) {
            Some(d) => {
                if d <= self.max_retry_delay {
                    d
                } else {
                    self.max_retry_delay
                }
            },
            None => self.max_retry_delay,
        }
    }
}

/// The state of a simple progress display over a known total.
#[derive(Debug)]
pub struct ProgressIndicator {
    pub total: usize,
    pub current: usize,
    pub label: String,
    pub show_percentage: bool,
}

impl ProgressIndicator {
    /// A fresh indicator at zero; percentages are shown only when the
    /// total is known to be positive.
    pub fn new(label: &str, total: usize) -> (r: ProgressIndicator)
        ensures
            r.label@ == label@,
            r.total == total,
            r.current == 0,
            r.show_percentage == (total > 0),
    {
        let mut l: String = String::new();
        l.append(label);
        ProgressIndicator { total, current: 0, label: l, show_percentage: total > 0 }
    }

    /// Sets the progress to `current`.
    pub fn update(&mut self, current: usize)
        ensures
            final(self).current == current,
            final(self).total == old(self).total,
            final(self).label == old(self).label,
            final(self).show_percentage == old(self).show_percentage,
    {
        self.current = current;
    }

    /// Advances the progress by one.
    pub fn inc(&mut self)
        requires
            old(self).current < usize::MAX,
        ensures
            final(self).current == old(self).current + 1,
            final(self).total == old(self).total,
            final(self).label == old(self).label,
            final(self).show_percentage == old(self).show_percentage,
    {
        self.current += 1;
    }
}

/// The state of a spinner for operations of unknown duration.
#[derive(Debug)]
pub struct Spinner {
    pub frames: Vec<char>,
    pub current: usize,
    pub label: String,
}

impl Spinner {
    /// A fresh spinner over the braille frame cycle.
    pub fn new(label: &str) -> (r: Spinner)
        ensures
            r.label@ == label@,
            r.current == 0,
            r.frames@.len() == 10,
    {
        let mut frames: Vec<char> = Vec::new();
        frames.push('\u{280b}');
        frames.push('\u{2819}');
        frames.push('\u{2839}');
        frames.push('\u{2838}');
        frames.push('\u{283c}');
        frames.push('\u{2834}');
        frames.push('\u{2826}');
        frames.push('\u{2827}');
        frames.push('\u{2807}');
        frames.push('\u{280f}');
        let mut l: String = String::new();
        l.append(label);
        Spinner { frames, current: 0, label: l }
    }

    /// The frame to draw now.
    pub fn frame(&self) -> (r: char)
        requires
            self.current < self.frames@.len(),
        ensures
            r == self.frames@[self.current as int],
    {
        self.frames[self.current]
    }

    /// Advances to the next frame, wrapping around the cycle.
    pub fn tick(&mut self)
        requires
            old(self).frames@.len() > 0,
            old(self).current < usize::MAX,
        ensures
            final(self).current == (old(self).current + 1) % (old(self).frames@.len() as int),
            final(self).frames == old(self).frames,
            final(self).label == old(self).label,
    {
        self.current = (self.current + 1) % self.frames.len();
    }
}

} // verus!
