//! Errors that the library's decisions can end in, and how they read.
use vstd::prelude::*;
use vstd::string::*;

verus! {

/// Why a synchronisation step was refused.
#[derive(Debug, PartialEq, Eq)]
pub enum SyncError {
    /// A remote path was expected to start with `s3://` and does not.
    InvalidS3Path,
    /// The configured file-name pattern does not compile; the compiler's message.
    InvalidPattern(String),
    /// The configured synchronisation mode is neither `pull` nor `push`.
    UnknownSyncMode(String),
    /// A local file does not lie under the local directory being synchronised.
    OutsideLocalDir(String),
    /// An operation did not finish within the given number of milliseconds.
    Timeout(u64),
}

/// The decimal digit `d` (for `d < 10`).
pub open spec fn digit_char(d: nat) -> char {
    seq!['0', '1', '2', '3', '4', '5', '6', '7', '8', '9'][d as int]
}

/// The decimal writing of `n`, without leading zeros.
pub open spec fn decimal_text(n: nat) -> Seq<char>
    decreases n,
{
    if n < 10 {
        seq![digit_char(n)]
    } else {
        decimal_text(n / 10).push(digit_char(n % 10))
    }
}

/// The one-character text of the decimal digit `d`.
fn digit_text(d: u64) -> (r: &'static str)
    requires
        d < 10,
    ensures
        r@ == seq![digit_char(d as nat)],
{
    let digits = "0123456789";
    proof {
        reveal_strlit("0123456789");
        assert(digits@ =~= seq!['0', '1', '2', '3', '4', '5', '6', '7', '8', '9']);
    }
    let r = digits.substring_char(d as usize, d as usize + 1);
    assert(r@ =~= seq![digit_char(d as nat)]);
    r
}

/// `n` written in decimal, as `format!("{}", n)` writes it.
pub fn decimal(n: u64) -> (r: String)
    ensures
        r@ == decimal_text(n as nat),
    decreases n,
{
    if n < 10 {
        String::from_str(digit_text(n))
    } else {
        let mut r = decimal(n / 10);
        r.append(digit_text(n % 10));
        r
    }
}

impl SyncError {
    /// How the error reads.
    pub open spec fn text(self) -> Seq<char> {
        match self {
            SyncError::InvalidS3Path => "Invalid S3 path format"@,
            SyncError::InvalidPattern(message) => message@,
            SyncError::UnknownSyncMode(mode) => "Unknown sync_mode: "@ + mode@,
            SyncError::OutsideLocalDir(_) => "prefix not found"@,
            SyncError::Timeout(ms) => "Operation timeout after "@ + decimal_text(ms as nat)
                + " ms"@,
        }
    }

    /// The error's message.
    pub fn message(&self) -> (r: String)
        ensures
            r@ == self.text(),
    {
        match self {
            SyncError::InvalidS3Path => String::from_str("Invalid S3 path format"),
            SyncError::InvalidPattern(message) => message.clone(),
            SyncError::UnknownSyncMode(mode) => {
                let mut r = String::from_str("Unknown sync_mode: ");
                r.append(mode.as_str());
                r
            },
            SyncError::OutsideLocalDir(_) => String::from_str("prefix not found"),
            SyncError::Timeout(ms) => {
                let mut r = String::from_str("Operation timeout after ");
                r.append(decimal(*ms).as_str());
                r.append(" ms");
                r
            },
        }
    }
}

} // verus!
