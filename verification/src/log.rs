//! The logging facade: a small interface with three severities. What a
//! sink does with a line is its own business; the protocol only hands
//! lines over.

use std::io::Write;
use vstd::prelude::*;

verus! {

/// A log sink.
pub trait Logger {
    fn info(&mut self, value: &str);

    fn warn(&mut self, value: &str);

    fn error(&mut self, value: &str);
}

/// Relies on std's `writeln` to standard output; the output stream is not
/// modeled.
#[verifier::external_body]
fn print_line(value: &str) {
    let _ = writeln!(std::io::stdout(), "{}", value);
}

/// Prints every line as it is, severity or not.
pub struct ColorlessPrintlnLogger;

impl Logger for ColorlessPrintlnLogger {
    fn info(&mut self, value: &str) {
        print_line(value);
    }

    fn warn(&mut self, value: &str) {
        print_line(value);
    }

    fn error(&mut self, value: &str) {
        print_line(value);
    }
}

/// A composite sink: fans every line out to each sink it holds, in order.
impl<T: Logger> Logger for Vec<T> {
    fn info(&mut self, value: &str) {
        let mut i: usize = 0;
        while i < self.len()
            invariant
                0 <= i <= self@.len(),
            decreases self@.len() - i,
        {
            self[i].info(value);
            i += 1;
        }
    }

    fn warn(&mut self, value: &str) {
        let mut i: usize = 0;
        while i < self.len()
            invariant
                0 <= i <= self@.len(),
            decreases self@.len() - i,
        {
            self[i].warn(value);
            i += 1;
        }
    }

    fn error(&mut self, value: &str) {
        let mut i: usize = 0;
        while i < self.len()
            invariant
                0 <= i <= self@.len(),
            decreases self@.len() - i,
        {
            self[i].error(value);
            i += 1;
        }
    }
}

} // verus!
