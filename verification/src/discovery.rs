//! Statistics of a running discovery, for logging.
use vstd::prelude::*;

verus! {

/// The decimal digit of a number below ten.
pub open spec fn digit(n: nat) -> char
    recommends
        n < 10,
{
    ('0' as u32 + n) as char
}

/// The decimal digits of a number, the most significant one first and without leading zeros.
pub open spec fn decimal(n: nat) -> Seq<char>
    decreases n,
{
    if n < 10 {
        seq![digit(n)]
    } else {
        decimal(n / 10).push(digit(n % 10))
    }
}

/// Discovery statistics: how many addresses are queued and visited, and how many peers with and
/// without compact filters were found.
#[derive(Clone, Copy, Debug, PartialEq, Eq, Structural)]
pub struct DiscoveryData {
    /// Addresses that wait for a connection.
    pub queued: usize,
    /// Addresses that were handed out for a connection.
    pub visited: usize,
    /// Peers found that do not serve compact filters.
    pub non_cbf_count: usize,
    /// Peers found that serve compact filters.
    pub cbf_count: usize,
}

impl DiscoveryData {
    /// Puts the given counts together.
    pub fn new(queued: usize, visited: usize, cbf_count: usize, non_cbf_count: usize) -> (r: Self)
        ensures
            r == (DiscoveryData { queued, visited, non_cbf_count, cbf_count }),
    {
        DiscoveryData { queued, visited, non_cbf_count, cbf_count }
    }

    /// The line that reports the statistics.
    pub open spec fn spec_text(self) -> Seq<char> {
        "pending: "@ + decimal(self.queued as nat) + ", visited: "@ + decimal(self.visited as nat)
            + ", cbf_count: "@ + decimal(self.cbf_count as nat) + ", non_cbf_count: "@ + decimal(
            self.non_cbf_count as nat,
        )
    }

    /// The line that reports these statistics.
    pub fn to_string(&self) -> (text: String)
        ensures
            text@ == self.spec_text(),
    {
        let mut text = String::from_str("pending: ");
        append_decimal(&mut text, self.queued);
        text.append(", visited: ");
        append_decimal(&mut text, self.visited);
        text.append(", cbf_count: ");
        append_decimal(&mut text, self.cbf_count);
        text.append(", non_cbf_count: ");
        append_decimal(&mut text, self.non_cbf_count);
        text
    }
}

/// Appends the decimal digits of a number to a text.
fn append_decimal(text: &mut String, n: usize)
    ensures
        final(text)@ == old(text)@ + decimal(n as nat),
    decreases n,
{
    if n < 10 {
        text.append(digit_str(n));
    } else {
        append_decimal(text, n / 10);
        let ghost before = text@;
        text.append(digit_str(n % 10));
        assert(before + seq![digit((n % 10) as nat)] =~= before.push(digit((n % 10) as nat)));
    }
}

/// The decimal digit of a number below ten, as a text.
fn digit_str(n: usize) -> (text: &'static str)
    requires
        n < 10,
    ensures
        text@ == seq![digit(n as nat)],
{
    proof {
        reveal_strlit("0");
        reveal_strlit("1");
        reveal_strlit("2");
        reveal_strlit("3");
        reveal_strlit("4");
        reveal_strlit("5");
        reveal_strlit("6");
        reveal_strlit("7");
        reveal_strlit("8");
        reveal_strlit("9");
    }
    match n {
        0 => "0",
        1 => "1",
        2 => "2",
        3 => "3",
        4 => "4",
        5 => "5",
        6 => "6",
        7 => "7",
        8 => "8",
        _ => "9",
    }
}

} // verus!
