//! One process at a time: a file holds the number of the process that runs.
use crate::text;
use crate::text::{chars_of, decimal_of, same_text, to_lower, trim, Edge};
use vstd::prelude::*;

verus! {

/// The name of the file.
pub const PID_FILE_NAME: &'static str = "bsl-context-rs.pid";

/// The number that the first `n` characters of a text write, where they are all digits.
pub open spec fn number_upto(s: Seq<char>, n: int) -> Option<nat>
    decreases n,
{
    if n <= 0 {
        Some(0)
    } else {
        match number_upto(s, n - 1) {
            Some(v) => if '0' <= s[n - 1] <= '9' {
                Some((v * 10 + (s[n - 1] as int - '0' as int)) as nat)
            } else {
                None
            },
            None => None,
        }
    }
}

/// The number that a text writes: digits, with a plus before them or not, and no more than what
/// fits 32 bits.
pub open spec fn number_of(s: Seq<char>) -> Option<nat> {
    let digits = if s.len() > 0 && s[0] == '+' {
        s.subrange(1, s.len() as int)
    } else {
        s
    };
    match number_upto(digits, digits.len() as int) {
        Some(v) => if digits.len() > 0 && v <= u32::MAX {
            Some(v)
        } else {
            None
        },
        None => None,
    }
}

proof fn lemma_number_grows(s: Seq<char>, n: int, m: int)
    requires
        0 <= n <= m <= s.len(),
        number_upto(s, n) is Some,
    ensures
        number_upto(s, m) matches Some(v) ==> v >= number_upto(s, n)->0,
    decreases m - n,
{
    if n < m {
        lemma_number_grows(s, n, m - 1);
    }
}

pub open spec fn opt_number(r: Option<u32>) -> Option<nat> {
    match r {
        Some(v) => Some(v as nat),
        None => None,
    }
}

fn parse_number(s: &str) -> (r: Option<u32>)
    ensures
        opt_number(r) == number_of(s@),
{
    let chars = chars_of(s);
    let start: usize = if chars.len() > 0 && chars[0] == '+' {
        1
    } else {
        0
    };
    let ghost digits = s@.subrange(start as int, s@.len() as int);
    assert(start == 0 ==> digits =~= s@);
    if start == chars.len() {
        return None;
    }
    let mut value: u64 = 0;
    let mut i = start;
    while i < chars.len()
        invariant
            chars@ == s@,
            start <= i <= chars.len(),
            digits == s@.subrange(start as int, s@.len() as int),
            digits.len() > 0,
            start == (if s@.len() > 0 && s@[0] == '+' {
                1int
            } else {
                0
            }),
            start == 0 ==> digits == s@,
            value <= u32::MAX,
            number_upto(digits, i - start) == Some(value as nat),
        decreases chars.len() - i,
    {
        let c: char = chars[i];
        assert(digits[i - start] == c);
        if c < '0' || c > '9' {
            proof {
                lemma_not_a_number(digits, i - start + 1, digits.len() as int);
            }
            return None;
        }
        let d: u64 = match c {
            '0' => 0,
            '1' => 1,
            '2' => 2,
            '3' => 3,
            '4' => 4,
            '5' => 5,
            '6' => 6,
            '7' => 7,
            '8' => 8,
            _ => 9,
        };
        value = value * 10 + d;
        assert(number_upto(digits, i - start + 1) == Some(value as nat));
        if value > u32::MAX as u64 {
            proof {
                lemma_number_grows(digits, i - start + 1, digits.len() as int);
            }
            return None;
        }
        i += 1;
    }
    Some(value as u32)
}

proof fn lemma_not_a_number(s: Seq<char>, n: int, m: int)
    requires
        0 <= n <= m <= s.len(),
        number_upto(s, n) is None,
    ensures
        number_upto(s, m) is None,
    decreases m - n,
{
    if n < m {
        lemma_not_a_number(s, n, m - 1);
    }
}

/// The number of the process that a file names. White space around it does not matter.
pub open spec fn recorded(content: Seq<char>) -> Option<nat> {
    number_of(text::trimmed(Edge::Space, content))
}

/// The number of the process that a file names, if it names one.
pub fn recorded_pid(content: &str) -> (r: Option<u32>)
    ensures
        opt_number(r) == recorded(content@),
{
    parse_number(trim(Edge::Space, content).as_str())
}

/// A process with this name is the server. The name may lack the extension.
pub open spec fn is_server_name(name: Seq<char>) -> bool {
    text::lowercase(name) == "bsl-context-rs.exe"@ || text::lowercase(name) == "bsl-context-rs"@
}

/// Whether a process with this name is the server.
pub fn is_our_process(name: &str) -> (r: bool)
    ensures
        r == is_server_name(name@),
{
    let low = to_lower(name);
    same_text(low.as_str(), "bsl-context-rs.exe") || same_text(low.as_str(), "bsl-context-rs")
}

/// The file belongs to a server that runs: it names a process other than this one, and a process
/// with that number runs under the name of the server.
pub open spec fn is_taken(content: Option<Seq<char>>, own: nat, running: Option<Seq<char>>) -> bool {
    match content {
        Some(c) => recorded(c) is Some && recorded(c) != Some(own) && match running {
            Some(name) => is_server_name(name),
            None => false,
        },
        None => false,
    }
}

/// What is said where a server runs already.
pub open spec fn taken_text(pid: nat, path: Seq<char>) -> Seq<char> {
    "Сервис bsl-context-rs уже запущен (PID "@ + text::decimal(pid) + "). PID-файл: "@ + path
        + ". Если это ошибочное срабатывание — удалите файл или дождитесь его автоудаления при graceful shutdown."@
}

/// The right to be the only server.
#[derive(Debug, Clone)]
pub struct PidLock {
    /// The file that holds the number of the process.
    pub path: String,
    /// What is to be written to the file.
    pub content: String,
}

impl PidLock {
    /// Takes the right to be the only server. `content` is what the file holds, where there is
    /// one; `own` is the number of this process; `running` is the name of the process that has
    /// the number in the file, where one runs.
    pub fn acquire(path: &str, content: Option<&str>, own: u32, running: Option<&str>) -> (r: Result<
        PidLock,
        String,
    >)
        ensures
            r is Ok <==> !is_taken(text::opt_str(content), own as nat, text::opt_str(running)),
            r matches Ok(lock) ==> lock.path@ == path@ && lock.content@ == text::decimal(own as nat),
            r matches Err(e) ==> e@ == taken_text(recorded(content->0@)->0, path@),
    {
        if let Some(c) = content {
            if let Some(pid) = recorded_pid(c) {
                if pid != own {
                    if let Some(name) = running {
                        if is_our_process(name) {
                            let mut s = "Сервис bsl-context-rs уже запущен (PID ".to_string();
                            s.append(decimal_of(pid as usize).as_str());
                            s.append("). PID-файл: ");
                            s.append(path);
                            s.append(
                                ". Если это ошибочное срабатывание — удалите файл или дождитесь его автоудаления при graceful shutdown.",
                            );
                            return Err(s);
                        }
                    }
                }
            }
        }
        Ok(PidLock { path: path.to_string(), content: decimal_of(own as usize) })
    }
}

/// A file with the number of this process never stands in the way, whatever runs: a server that
/// runs cannot have that number.
pub proof fn law_own_number_is_stale(content: Seq<char>, own: nat, running: Option<Seq<char>>)
    requires
        recorded(content) == Some(own),
    ensures
        !is_taken(Some(content), own, running),
{
}

/// A file with the number of a process that does not run, or that is another program, never
/// stands in the way.
pub proof fn law_dead_number_is_stale(content: Option<Seq<char>>, own: nat, running: Option<Seq<char>>)
    requires
        running is None || !is_server_name(running->0),
    ensures
        !is_taken(content, own, running),
{
}

proof fn lemma_decimal_is_a_number(n: nat)
    ensures
        text::decimal(n).len() > 0,
        number_upto(text::decimal(n), text::decimal(n).len() as int) == Some(n),
        forall|i: int| 0 <= i < text::decimal(n).len() ==> '0' <= #[trigger] text::decimal(n)[i] <= '9',
    decreases n,
{
    let s = text::decimal(n);
    if n < 10 {
        assert(number_upto(s, 0) == Some(0nat));
    } else {
        lemma_decimal_is_a_number(n / 10);
        let shorter = text::decimal(n / 10);
        lemma_same_number(shorter, s, shorter.len() as int);
    }
}

proof fn lemma_same_number(a: Seq<char>, b: Seq<char>, n: int)
    requires
        0 <= n <= a.len(),
        n <= b.len(),
        forall|i: int| 0 <= i < n ==> #[trigger] a[i] == b[i],
    ensures
        number_upto(a, n) == number_upto(b, n),
    decreases n,
{
    if n > 0 {
        lemma_same_number(a, b, n - 1);
    }
}

/// What a server writes to the file is read back as its number.
pub proof fn law_written_number_is_read_back(own: u32)
    ensures
        number_of(text::decimal(own as nat)) == Some(own as nat),
{
    lemma_decimal_is_a_number(own as nat);
    assert(text::decimal(own as nat)[0] != '+');
}

/// The lock is taken exactly where its file holds a number that can be read, that number is not
/// the own one, and the process of that number runs as the server, whatever the letter case of its
/// name and with or without the end of a program.
pub proof fn law_running_server_holds_the_lock(content: Seq<char>, own: nat, name: Seq<char>)
    ensures
        is_taken(Some(content), own, Some(name)) <==> (recorded(content) matches Some(p) && p != own) && (
        text::lowercase(name) == "bsl-context-rs"@ || text::lowercase(name) == "bsl-context-rs.exe"@),
        !is_taken(None, own, Some(name)),
{
}

/// White space around the number does not matter: a lock file with a line feed at its end is read
/// as one without.
pub proof fn law_white_space_around_the_number(a: Seq<char>, number: Seq<char>, b: Seq<char>)
    requires
        forall|k: int| 0 <= k < a.len() ==> text::is_space(#[trigger] a[k]),
        forall|k: int| 0 <= k < b.len() ==> text::is_space(#[trigger] b[k]),
        number.len() > 0 ==> !text::is_space(number[0]) && !text::is_space(number.last()),
    ensures
        recorded(a + number + b) == number_of(number),
{
    text::law_trimming_takes_off_the_edges(Edge::Space, a, number, b);
}

/// A number is read digit by digit: one more digit makes ten times the number and the digit, and
/// anything that is no digit makes it none. An empty text and a sign alone are no numbers.
pub proof fn law_number_is_read_digit_by_digit(s: Seq<char>, c: char)
    requires
        s.len() > 0,
        s[0] != '+',
    ensures
        '0' <= c <= '9' && (number_of(s) matches Some(v) && v * 10 + (c as int - '0' as int) <= u32::MAX)
            ==> number_of(s.push(c)) == Some((number_of(s)->0 * 10 + (c as int - '0' as int)) as nat),
        !('0' <= c <= '9') ==> number_of(s.push(c)) is None,
        number_of(Seq::<char>::empty()) is None,
        number_of(seq!['+']) is None,
        number_of(seq!['+'] + s) == number_of(s),
{
    let t = s.push(c);
    lemma_same_number(s, t, s.len() as int);
    assert(t[s.len() as int] == c);
    assert(seq!['+'].subrange(1, 1) =~= Seq::<char>::empty());
    assert((seq!['+'] + s).subrange(1, (seq!['+'] + s).len() as int) =~= s);
}

} // verus!
