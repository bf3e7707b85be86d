//! Daemon health state: the status the manager tracks for the preview
//! process, the transition a health poll causes, and the status label.

use vstd::prelude::*;

verus! {

use vstd::string::StringExecFns;

/// The decimal digit character for a value 0-9.
pub open spec fn digit_char(d: int) -> char {
    if d == 0 {
        '0'
    } else if d == 1 {
        '1'
    } else if d == 2 {
        '2'
    } else if d == 3 {
        '3'
    } else if d == 4 {
        '4'
    } else if d == 5 {
        '5'
    } else if d == 6 {
        '6'
    } else if d == 7 {
        '7'
    } else if d == 8 {
        '8'
    } else {
        '9'
    }
}

/// The decimal digits of a non-negative number, most significant first.
pub open spec fn dec_digits(n: int) -> Seq<char>
    decreases n,
    when n >= 0
{
    if n < 10 {
        seq![digit_char(n)]
    } else {
        dec_digits(n / 10).push(digit_char(n % 10))
    }
}

/// The decimal form of a number, with a sign for negative values.
pub open spec fn dec_str(n: int) -> Seq<char> {
    if n < 0 {
        seq!['-'] + dec_digits(-n)
    } else {
        dec_digits(n)
    }
}

/// One decimal digit as a string slice.
fn digit_str(d: u8) -> (r: &'static str)
    requires
        d < 10,
    ensures
        r@ == seq![digit_char(d as int)],
{
    let r: &'static str = match d {
        0 => "0",
        1 => "1",
        2 => "2",
        3 => "3",
        4 => "4",
        5 => "5",
        6 => "6",
        7 => "7",
        8 => "8",
        _ => "9",
    };
    proof {
        reveal_strlit("0");
        reveal_strlit("1");
        reveal_strlit("2");
        reveal_strlit("3");
        reveal_strlit("4");
        reveal_strlit("5");
        reveal_strlit("6");
        reveal_strlit("7");
        reveal_strlit("8");
        reveal_strlit("9");
        assert(r@ =~= seq![digit_char(d as int)]);
    }
    r
}

/// Append the decimal form of a number to a string.
fn append_decimal(out: &mut String, n: i32)
    ensures
        final(out)@ == old(out)@ + dec_str(n as int),
{
    let ghost base = out@;
    let mut m: u64 = if n < 0 {
        proof {
            reveal_strlit("-");
        }
        out.append("-");
        (-(n as i64)) as u64
    } else {
        n as u64
    };
    let ghost n0 = m as int;
    proof {
        assert(base + dec_str(n as int) =~= out@ + dec_digits(n0));
    }
    let ghost mid = out@;
    let mut digits: Vec<u8> = Vec::new();
    digits.push((m % 10) as u8);
    m = m / 10;
    while m > 0
        invariant
            0 <= m,
            digits@.len() > 0,
            forall|k: int| 0 <= k < digits@.len() ==> digits@[k] < 10,
            m > 0 ==> dec_digits(n0) == dec_digits(m as int) + digits@.map_values(
                |d: u8| digit_char(d as int),
            ).reverse(),
            m == 0 ==> dec_digits(n0) == digits@.map_values(
                |d: u8| digit_char(d as int),
            ).reverse(),
        decreases m,
    {
        let d = (m % 10) as u8;
        proof {
            let chars = |d: u8| digit_char(d as int);
            assert(digits@.push(d).map_values(chars).reverse() =~= seq![
                digit_char(d as int),
            ] + digits@.map_values(chars).reverse());
            assert(dec_digits(m as int) == dec_digits(m as int / 10).push(
                digit_char(m as int % 10),
            ) || m < 10);
            if m >= 10 {
                assert(dec_digits(m as int / 10) + seq![digit_char(m as int % 10)]
                    =~= dec_digits(m as int / 10).push(digit_char(m as int % 10)));
                assert(dec_digits(m as int / 10) + (seq![
                    digit_char(m as int % 10),
                ] + digits@.map_values(chars).reverse()) =~= (dec_digits(m as int / 10) + seq![
                    digit_char(m as int % 10),
                ]) + digits@.map_values(chars).reverse());
            } else {
                assert(dec_digits(m as int) =~= seq![digit_char(m as int)]);
            }
        }
        digits.push(d);
        m = m / 10;
    }
    let mut i: usize = digits.len();
    while i > 0
        invariant
            i <= digits@.len(),
            forall|k: int| 0 <= k < digits@.len() ==> digits@[k] < 10,
            dec_digits(n0) == digits@.map_values(|d: u8| digit_char(d as int)).reverse(),
            out@ == mid + digits@.map_values(|d: u8| digit_char(d as int)).reverse().take(
                digits@.len() - i,
            ),
        decreases i,
    {
        i = i - 1;
        out.append(digit_str(digits[i]));
        proof {
            let rev = digits@.map_values(|d: u8| digit_char(d as int)).reverse();
            assert(rev.take(digits@.len() - i) =~= rev.take(digits@.len() - i - 1).push(
                rev[digits@.len() - i - 1],
            ));
            assert(rev[digits@.len() - i - 1] == digit_char(digits@[i as int] as int));
        }
    }
    proof {
        let rev = digits@.map_values(|d: u8| digit_char(d as int)).reverse();
        assert(rev.take(digits@.len() as int) =~= rev);
        assert(out@ =~= base + dec_str(n as int));
    }
}

/// The preview daemon's health, as the manager tracks it.
#[derive(Debug, Clone, Copy, PartialEq, Eq)]
pub enum DaemonStatus {
    Starting,
    Running,
    Stopped,
    Crashed(Option<i32>),
}

/// What one health poll of the daemon process observed.
#[derive(Debug, Clone, Copy, PartialEq, Eq)]
pub enum PollResult {
    /// The process is still alive.
    StillRunning,
    /// The process exited, with its success flag and exit code.
    Exited { success: bool, code: Option<i32> },
    /// The process state could not be queried.
    QueryFailed,
}

/// The status label's text.
pub open spec fn label_of(status: DaemonStatus) -> Seq<char> {
    match status {
        DaemonStatus::Starting => "\u{25CF}  Starting..."@,
        DaemonStatus::Running => "\u{25CF}  Running"@,
        DaemonStatus::Stopped => "\u{25CF}  Stopped"@,
        DaemonStatus::Crashed(None) => "\u{25CF}  Crashed"@,
        DaemonStatus::Crashed(Some(code)) => "\u{25CF}  Crashed (exit "@ + dec_str(code as int)
            + ")"@,
    }
}

impl DaemonStatus {
    /// The status line shown for the daemon.
    pub fn label(&self) -> (r: String)
        ensures
            r@ == label_of(*self),
    {
        match self {
            DaemonStatus::Starting => String::from_str("\u{25CF}  Starting..."),
            DaemonStatus::Running => String::from_str("\u{25CF}  Running"),
            DaemonStatus::Stopped => String::from_str("\u{25CF}  Stopped"),
            DaemonStatus::Crashed(None) => String::from_str("\u{25CF}  Crashed"),
            DaemonStatus::Crashed(Some(code)) => {
                let mut text = String::from_str("\u{25CF}  Crashed (exit ");
                append_decimal(&mut text, *code);
                proof {
                    reveal_strlit(")");
                }
                text.append(")");
                proof {
                    assert(text@ =~= label_of(*self));
                }
                text
            },
        }
    }

    /// The status after one health poll: a running daemon that was starting
    /// is now running; an exited one is stopped on success and crashed with
    /// its exit code otherwise; a failed query leaves the status alone.
    pub fn after_poll(self, poll: PollResult) -> (r: DaemonStatus)
        ensures
            r == match poll {
                PollResult::StillRunning => if self is Starting {
                    DaemonStatus::Running
                } else {
                    self
                },
                PollResult::Exited { success, code } => if success {
                    DaemonStatus::Stopped
                } else {
                    DaemonStatus::Crashed(code)
                },
                PollResult::QueryFailed => self,
            },
    {
        match poll {
            PollResult::StillRunning => match self {
                DaemonStatus::Starting => DaemonStatus::Running,
                other => other,
            },
            PollResult::Exited { success, code } => {
                if success {
                    DaemonStatus::Stopped
                } else {
                    DaemonStatus::Crashed(code)
                }
            },
            PollResult::QueryFailed => self,
        }
    }
}

} // verus!
