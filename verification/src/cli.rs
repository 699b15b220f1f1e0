//! What a command line asks for: the action that the flags select, whether
//! it needs the superuser, and the number that a line of input gives.

use crate::text::{chars_of, trim, trimmed};
use vstd::prelude::*;

verus! {

/// The proxy of the anonymity network.
pub const TOR_PROXY: &'static str = "socks5 \t127.0.0.1 9050";

/// The proxy of the tunnel client.
pub const CHISEL_PROXY: &'static str = "socks5 \t127.0.0.1 1080";

/// The flags of a command line.
#[derive(Debug, Clone, PartialEq, Eq)]
pub struct Flags {
    pub tor: bool,
    pub chisel: bool,
    pub cs: bool,
    pub add: Option<String>,
    pub list: bool,
    pub delete: bool,
    pub backup: bool,
    pub restore: bool,
}

/// What a command line asks for.
#[derive(Debug, Clone, PartialEq, Eq)]
pub enum Action {
    /// Switch to the proxy of the anonymity network.
    Tor,
    /// Switch to the proxy of the tunnel client.
    Chisel,
    /// Ask for the number of a custom proxy and switch to it.
    SelectCustom,
    /// Add the given custom proxy.
    Add(String),
    /// Show the custom proxies.
    List,
    /// Ask for the number of a custom proxy and delete it.
    Delete,
    /// Copy the configuration to its backup.
    Backup,
    /// Copy the backup over the configuration.
    Restore,
    /// No flag was given.
    Invalid,
}

/// How an action is carried out.
#[derive(Debug, Clone, PartialEq, Eq)]
pub struct Plan {
    /// The action changes files and is refused to anyone but the superuser.
    pub needs_root: bool,
    /// The banner is shown first.
    pub shows_logo: bool,
    /// The new exit address is looked up and shown at the end.
    pub checks_connection: bool,
}

/// The first flag that is set decides, in this order: `tor`, `chisel`,
/// `cs`, `add`, `list`, `delete`, `backup`, `restore`.
pub open spec fn selected_action(flags: Flags) -> Action {
    if flags.tor {
        Action::Tor
    } else if flags.chisel {
        Action::Chisel
    } else if flags.cs {
        Action::SelectCustom
    } else if flags.add is Some {
        Action::Add(flags.add->0)
    } else if flags.list {
        Action::List
    } else if flags.delete {
        Action::Delete
    } else if flags.backup {
        Action::Backup
    } else if flags.restore {
        Action::Restore
    } else {
        Action::Invalid
    }
}

/// Every action that changes a file needs the superuser; showing the list
/// and refusing a command line do not.
pub open spec fn action_needs_root(action: Action) -> bool {
    !(action is List || action is Invalid)
}

/// The plan of an action.
pub open spec fn plan_of(action: Action) -> Plan {
    Plan {
        needs_root: action_needs_root(action),
        shows_logo: action is Tor || action is Chisel || action is SelectCustom || action is Add
            || action is List,
        checks_connection: action is Tor || action is Chisel || action is SelectCustom
            || action is Add,
    }
}

/// The fixed proxy that an action switches to, if it switches to one.
pub open spec fn fixed_proxy_of(action: Action) -> Option<Seq<char>> {
    if action is Tor {
        Some(TOR_PROXY@)
    } else if action is Chisel {
        Some(CHISEL_PROXY@)
    } else {
        None
    }
}

/// The value of a decimal digit.
pub open spec fn digit_value(c: char) -> nat {
    (c as u32 - 0x30) as nat
}

/// `c` is a decimal digit.
pub open spec fn is_digit(c: char) -> bool {
    0x30 <= c as u32 <= 0x39
}

/// The number that the digits `s` write.
pub open spec fn number_of(s: Seq<char>) -> nat
    decreases s.len(),
{
    if s.len() == 0 {
        0
    } else {
        10 * number_of(s.drop_last()) + digit_value(s.last())
    }
}

/// `s` is one digit or more.
pub open spec fn all_digits(s: Seq<char>) -> bool {
    s.len() > 0 && forall|i: int| 0 <= i < s.len() ==> is_digit(#[trigger] s[i])
}

/// `s` without one `+` at its beginning.
pub open spec fn unsigned_part(s: Seq<char>) -> Seq<char> {
    if s.len() > 0 && s[0] == '+' {
        s.drop_first()
    } else {
        s
    }
}

/// The number that a line of input gives: after the white space around it
/// and one leading `+` are taken away, decimal digits are left and the
/// number they write fits the machine word. `None` for any other input.
pub open spec fn index_of_input(input: Seq<char>) -> Option<nat> {
    let digits = unsigned_part(trimmed(input));
    if all_digits(digits) && number_of(digits) <= usize::MAX {
        Some(number_of(digits))
    } else {
        None
    }
}

/// The number written by a beginning of `s` is at most the number written
/// by `s`.
pub proof fn lemma_number_of_grows(s: Seq<char>, k: int)
    requires
        0 <= k <= s.len(),
    ensures
        number_of(s.take(k)) <= number_of(s),
    decreases s.len() - k,
{
    if k < s.len() {
        lemma_number_of_grows(s, k + 1);
        assert(s.take(k + 1).drop_last() == s.take(k));
    } else {
        assert(s.take(k) == s);
    }
}

/// The action that the flags select.
pub fn choose_action(flags: Flags) -> (action: Action)
    ensures
        action == selected_action(flags),
{
    if flags.tor {
        Action::Tor
    } else if flags.chisel {
        Action::Chisel
    } else if flags.cs {
        Action::SelectCustom
    } else if let Some(proxy) = flags.add {
        Action::Add(proxy)
    } else if flags.list {
        Action::List
    } else if flags.delete {
        Action::Delete
    } else if flags.backup {
        Action::Backup
    } else if flags.restore {
        Action::Restore
    } else {
        Action::Invalid
    }
}

/// The plan of an action.
pub fn plan(action: &Action) -> (p: Plan)
    ensures
        p == plan_of(*action),
{
    match action {
        Action::Tor | Action::Chisel | Action::SelectCustom | Action::Add(_) => Plan {
            needs_root: true,
            shows_logo: true,
            checks_connection: true,
        },
        Action::List => Plan { needs_root: false, shows_logo: true, checks_connection: false },
        Action::Delete | Action::Backup | Action::Restore => Plan {
            needs_root: true,
            shows_logo: false,
            checks_connection: false,
        },
        Action::Invalid => Plan { needs_root: false, shows_logo: false, checks_connection: false },
    }
}

/// The fixed proxy that an action switches to, if it switches to one.
pub fn fixed_proxy(action: &Action) -> (r: Option<&'static str>)
    ensures
        match r {
            Some(proxy) => fixed_proxy_of(*action) == Some(proxy@),
            None => fixed_proxy_of(*action) is None,
        },
{
    match action {
        Action::Tor => Some(TOR_PROXY),
        Action::Chisel => Some(CHISEL_PROXY),
        _ => None,
    }
}

/// `uzers::get_current_uid`: the ID of the user that runs the process.
/// Nothing is claimed of it.
#[verifier::external_body]
fn current_uid() -> u32 {
    uzers::get_current_uid()
}

/// Whether the superuser runs the process.
pub fn is_root() -> bool {
    uid_is_root(current_uid())
}

/// Whether `uid` is the ID of the superuser.
pub fn uid_is_root(uid: u32) -> (b: bool)
    ensures
        b == (uid == 0),
{
    uid == 0
}

/// The number that a line of input gives.
pub fn parse_index(input: &str) -> (r: Option<usize>)
    ensures
        match r {
            Some(n) => index_of_input(input@) == Some(n as nat),
            None => index_of_input(input@) is None,
        },
{
    let text = chars_of(input);
    let t = trim(text.as_slice());
    let from: usize = if t.len() > 0 && t[0] == '+' {
        1
    } else {
        0
    };
    let ghost digits = unsigned_part(t@);
    if from == t.len() {
        return None;
    }
    let mut n: usize = 0;
    let mut i: usize = from;
    while i < t.len()
        invariant
            from <= i <= t.len(),
            t@ == trimmed(input@),
            digits == unsigned_part(t@),
            digits == t@.skip(from as int),
            n == number_of(digits.take(i - from)),
            forall|k: int| 0 <= k < i - from ==> is_digit(#[trigger] digits[k]),
        decreases t.len() - i,
    {
        let c = t[i];
        assert(c == digits[i - from]);
        let u: u32 = c as u32;
        if u < 0x30 || u > 0x39 {
            return None;
        }
        let d: usize = (u - 0x30) as usize;
        proof {
            assert(digits.take(i - from + 1).drop_last() == digits.take(i - from));
            lemma_number_of_grows(digits, i - from + 1);
        }
        if n > (usize::MAX - d) / 10 {
            return None;
        }
        n = 10 * n + d;
        i += 1;
    }
    assert(digits.take(i - from) == digits);
    Some(n)
}

} // verus!
