//! Per-file-descriptor bookkeeping: fd names, capture buffers, and the
//! result a handler reports.

use vstd::prelude::*;

verus! {

/// The character for one decimal digit.
pub open spec fn digit_char(d: nat) -> char {
    if d == 0 {
        '0'
    } else if d == 1 {
        '1'
    } else if d == 2 {
        '2'
    } else if d == 3 {
        '3'
    } else if d == 4 {
        '4'
    } else if d == 5 {
        '5'
    } else if d == 6 {
        '6'
    } else if d == 7 {
        '7'
    } else if d == 8 {
        '8'
    } else {
        '9'
    }
}

/// The decimal representation of a number, most significant digit first.
pub open spec fn dec_rep(n: nat) -> Seq<char>
    decreases n,
{
    if n < 10 {
        seq![digit_char(n)]
    } else {
        dec_rep(n / 10) + seq![digit_char(n % 10)]
    }
}

/// Whether every character is a decimal digit.
pub open spec fn is_digit_seq(s: Seq<char>) -> bool {
    forall|i: int| 0 <= i < s.len() ==> '0' <= #[trigger] s[i] <= '9'
}

/// Powers of ten.
pub open spec fn pow10(n: nat) -> nat
    decreases n,
{
    if n == 0 {
        1
    } else {
        10 * pow10((n - 1) as nat)
    }
}

/// The small powers of ten, spelled out.
proof fn lemma_pow10_table()
    ensures
        pow10(0) == 1,
        pow10(1) == 10,
        pow10(2) == 100,
        pow10(3) == 1000,
        pow10(4) == 10000,
        pow10(5) == 100000,
        pow10(6) == 1000000,
        pow10(7) == 10000000,
        pow10(8) == 100000000,
        pow10(9) == 1000000000,
{
    assert(pow10(0) == 1);
    assert(pow10(1) == 10);
    assert(pow10(2) == 100);
    assert(pow10(3) == 1000);
    assert(pow10(4) == 10000);
    assert(pow10(5) == 100000);
    assert(pow10(6) == 1000000);
    assert(pow10(7) == 10000000);
    assert(pow10(8) == 100000000);
    assert(pow10(9) == 1000000000);
}

/// A digit string of length n has value below ten to the n.
proof fn lemma_dec_val_bound(s: Seq<char>)
    requires
        is_digit_seq(s),
    ensures
        dec_val(s) < pow10(s.len()),
    decreases s.len(),
{
    if s.len() > 0 {
        assert(is_digit_seq(s.drop_last())) by {
            assert(forall|i: int|
                0 <= i < s.len() - 1 ==> s.drop_last()[i] == #[trigger] s[i]);
        }
        lemma_dec_val_bound(s.drop_last());
        assert(s.last() as int - '0' as int <= 9);
    }
}

/// The numeric value of a digit sequence.
pub open spec fn dec_val(s: Seq<char>) -> nat
    decreases s.len(),
{
    if s.len() == 0 {
        0
    } else {
        (dec_val(s.drop_last()) * 10 + (s.last() as int - '0' as int)) as nat
    }
}

/// The canonical name of an fd number: the conventional names for the three
/// standard streams, the decimal number otherwise.
pub open spec fn name_of_fd(fd: int) -> Seq<char> {
    if fd == 0 {
        "stdin"@
    } else if fd == 1 {
        "stdout"@
    } else if fd == 2 {
        "stderr"@
    } else {
        dec_rep(fd as nat)
    }
}

/// The fd number an fd name denotes, if any: a standard stream name or a
/// string of decimal digits whose value fits an fd number.
pub open spec fn fd_of_name(s: Seq<char>) -> Option<int> {
    if s == "stdin"@ {
        Some(0int)
    } else if s == "stdout"@ {
        Some(1int)
    } else if s == "stderr"@ {
        Some(2int)
    } else if s.len() > 0 && s.len() <= 9 && is_digit_seq(s) {
        Some(dec_val(s) as int)
    } else {
        None
    }
}

/// Appends one decimal digit character.
fn append_digit(s: &mut String, d: u32)
    requires
        d < 10,
    ensures
        final(s)@ == old(s)@.push(digit_char(d as nat)),
{
    let t: &str = match d {
        0 => "0",
        1 => "1",
        2 => "2",
        3 => "3",
        4 => "4",
        5 => "5",
        6 => "6",
        7 => "7",
        8 => "8",
        _ => "9",
    };
    proof {
        reveal_strlit("0");
        reveal_strlit("1");
        reveal_strlit("2");
        reveal_strlit("3");
        reveal_strlit("4");
        reveal_strlit("5");
        reveal_strlit("6");
        reveal_strlit("7");
        reveal_strlit("8");
        reveal_strlit("9");
        assert(t@ =~= seq![digit_char(d as nat)]);
    }
    s.append(t);
    proof {
        assert(s@ =~= old(s)@.push(digit_char(d as nat)));
    }
}

/// Appends the decimal representation of a number.
fn append_decimal(s: &mut String, n: u32)
    ensures
        final(s)@ == old(s)@ + dec_rep(n as nat),
    decreases n,
{
    if n < 10 {
        append_digit(s, n);
        proof {
            assert(s@ =~= old(s)@ + dec_rep(n as nat));
        }
    } else {
        append_decimal(s, n / 10);
        append_digit(s, n % 10);
        proof {
            assert(s@ =~= old(s)@ + dec_rep(n as nat));
        }
    }
}

/// The canonical name for an fd number.
pub fn get_fd_name(fd: i32) -> (r: String)
    requires
        fd >= 0,
    ensures
        r@ == name_of_fd(fd as int),
{
    if fd == 0 {
        String::from_str("stdin")
    } else if fd == 1 {
        String::from_str("stdout")
    } else if fd == 2 {
        String::from_str("stderr")
    } else {
        let mut s = String::new();
        append_decimal(&mut s, fd as u32);
        proof {
            assert(s@ =~= dec_rep(fd as nat));
        }
        s
    }
}

/// Whether two strings have the same characters.
pub(crate) fn str_eq(a: &str, b: &str) -> (r: bool)
    ensures
        r == (a@ == b@),
{
    let la = a.unicode_len();
    let lb = b.unicode_len();
    if la != lb {
        return false;
    }
    let mut i: usize = 0;
    while i < la
        invariant
            0 <= i <= la,
            la == a@.len(),
            la == b@.len(),
            forall|j: int| 0 <= j < i ==> a@[j] == b@[j],
        decreases la - i,
    {
        if a.get_char(i) != b.get_char(i) {
            return false;
        }
        i += 1;
    }
    proof {
        assert(a@ =~= b@);
    }
    true
}

/// Parses an fd name to its fd number; fails on a name that is neither a
/// standard stream name nor a short string of decimal digits.
#[verifier::loop_isolation(false)]
pub fn parse_fd_name(name: &str) -> (r: Option<i32>)
    ensures
        match r {
            Some(fd) => fd_of_name(name@) == Some(fd as int),
            None => fd_of_name(name@) is None,
        },
{
    if str_eq(name, "stdin") {
        return Some(0);
    }
    if str_eq(name, "stdout") {
        return Some(1);
    }
    if str_eq(name, "stderr") {
        return Some(2);
    }
    let len = name.unicode_len();
    if len == 0 || len > 9 {
        return None;
    }
    proof {
        lemma_pow10_table();
    }
    let mut i: usize = 0;
    let mut val: u32 = 0;
    while i < len
        invariant
            0 <= i <= len,
            forall|j: int| 0 <= j < i ==> '0' <= #[trigger] name@[j] <= '9',
            val == dec_val(name@.subrange(0, i as int)),
            val < pow10(i as nat),
        decreases len - i,
    {
        let c = name.get_char(i);
        if c < '0' || c > '9' {
            proof {
                assert(!is_digit_seq(name@));
            }
            return None;
        }
        proof {
            assert(name@.subrange(0, i + 1 as int).drop_last() =~= name@.subrange(0, i as int));
            assert(is_digit_seq(name@.subrange(0, i as int)));
            lemma_dec_val_bound(name@.subrange(0, i as int));
            assert(pow10(i as nat) <= pow10(8));
            assert(pow10((i + 1) as nat) == 10 * pow10(i as nat));
        }
        val = val * 10 + (c as u32 - 48);
        i += 1;
    }
    proof {
        lemma_dec_val_bound(name@.subrange(0, len as int));
    }
    proof {
        assert(name@.subrange(0, len as int) =~= name@);
    }
    Some(val as i32)
}

/// Formatting then parsing an fd name gives back the fd number.
pub proof fn lemma_fd_name_round_trip(fd: int)
    requires
        0 <= fd < 1000000000,
    ensures
        fd_of_name(name_of_fd(fd)) == Some(fd),
{
    reveal_strlit("stdin");
    reveal_strlit("stdout");
    reveal_strlit("stderr");
    if fd == 0 {
        assert("stdin"@ == "stdin"@);
    } else if fd == 1 {
        assert("stdout"@.len() == 6);
        assert("stdin"@.len() == 5);
        assert("stdout"@ != "stdin"@);
    } else if fd == 2 {
        assert("stderr"@.len() == 6 && "stdin"@.len() == 5);
        assert("stderr"@ != "stdin"@);
        assert("stderr"@[3] == 'e' && "stdout"@[3] == 'o');
        assert("stderr"@ != "stdout"@);
    } else {
        lemma_dec_rep_digits(fd as nat);
        lemma_pow10_table();
        lemma_dec_rep_len(fd as nat, 9);
        lemma_dec_val_of_rep(fd as nat);
        assert(dec_rep(fd as nat)[0] != 's');
        assert(dec_rep(fd as nat) != "stdin"@);
        assert(dec_rep(fd as nat) != "stdout"@);
        assert(dec_rep(fd as nat) != "stderr"@);
    }
}

/// A decimal representation consists of digits and starts with one.
proof fn lemma_dec_rep_digits(n: nat)
    ensures
        is_digit_seq(dec_rep(n)),
        dec_rep(n).len() > 0,
        '0' <= dec_rep(n)[0] <= '9',
    decreases n,
{
    if n >= 10 {
        lemma_dec_rep_digits(n / 10);
        assert forall|i: int| 0 <= i < dec_rep(n).len() implies '0' <= #[trigger] dec_rep(
            n,
        )[i] <= '9' by {
            if i < dec_rep(n / 10).len() {
                assert(dec_rep(n)[i] == dec_rep(n / 10)[i]);
            }
        }
    }
}

/// A number below ten to the k prints in at most k digits.
proof fn lemma_dec_rep_len(n: nat, k: nat)
    requires
        k >= 1,
        n < pow10(k),
    ensures
        dec_rep(n).len() <= k,
    decreases k,
{
    if n >= 10 {
        assert(pow10(k) == 10 * pow10((k - 1) as nat));
        lemma_dec_rep_len(n / 10, (k - 1) as nat);
    }
}

/// Parsing a decimal representation gives back the number.
proof fn lemma_dec_val_of_rep(n: nat)
    ensures
        dec_val(dec_rep(n)) == n,
    decreases n,
{
    reveal_with_fuel(dec_val, 3);
    reveal_with_fuel(dec_rep, 2);
    assert('0' as int == 48);
    assert(digit_char(n % 10) as int - '0' as int == n % 10) by {
        let d = n % 10;
        assert(d < 10);
        if d == 0 {
            assert(digit_char(d) as int == 48);
        } else if d == 1 {
            assert(digit_char(d) as int == 49);
        } else if d == 2 {
            assert(digit_char(d) as int == 50);
        } else if d == 3 {
            assert(digit_char(d) as int == 51);
        } else if d == 4 {
            assert(digit_char(d) as int == 52);
        } else if d == 5 {
            assert(digit_char(d) as int == 53);
        } else if d == 6 {
            assert(digit_char(d) as int == 54);
        } else if d == 7 {
            assert(digit_char(d) as int == 55);
        } else if d == 8 {
            assert(digit_char(d) as int == 56);
        } else {
            assert(digit_char(d) as int == 57);
        }
    }
    if n < 10 {
        assert(dec_rep(n).drop_last() =~= Seq::<char>::empty());
        assert(dec_rep(n).last() == digit_char(n));
        assert(n % 10 == n);
    } else {
        lemma_dec_val_of_rep(n / 10);
        assert(dec_rep(n).drop_last() =~= dec_rep(n / 10));
        assert(dec_rep(n).last() == digit_char(n % 10));
    }
}

/// How captured output is rendered in results.
#[derive(Clone, Copy, Debug, PartialEq, Eq, Structural)]
pub enum CaptureFormat {
    Text,
    Base64,
}

/// What appending bytes does to a bounded capture buffer: everything up to
/// the cap is kept, the rest is dropped.
pub open spec fn append_model(data: Seq<u8>, cap: nat, bytes: Seq<u8>) -> Seq<u8> {
    if data.len() + bytes.len() <= cap {
        data + bytes
    } else {
        data + bytes.take(cap - data.len())
    }
}

/// A growable buffer for one captured fd, bounded by a byte cap; overflow
/// truncates and raises a flag.
#[derive(Clone, Debug)]
pub struct CaptureBuffer {
    pub data: Vec<u8>,
    pub cap: usize,
    pub truncated: bool,
}

impl CaptureBuffer {
    /// The buffer never holds more than its cap.
    pub open spec fn wf(&self) -> bool {
        self.data@.len() <= self.cap
    }

    /// A fresh, empty buffer with the given cap.
    pub fn new(cap: usize) -> (r: CaptureBuffer)
        ensures
            r.wf(),
            r.data@ == Seq::<u8>::empty(),
            r.cap == cap,
            !r.truncated,
    {
        CaptureBuffer { data: Vec::new(), cap, truncated: false }
    }

    /// Appends bytes read from the capture pipe, truncating at the cap and
    /// flagging truncation.
    #[verifier::loop_isolation(false)]
    pub fn append(&mut self, bytes: &[u8])
        requires
            old(self).wf(),
        ensures
            final(self).wf(),
            final(self).data@ == append_model(old(self).data@, old(self).cap as nat, bytes@),
            final(self).cap == old(self).cap,
            final(self).truncated == (old(self).truncated || old(self).data@.len() + bytes@.len()
                > old(self).cap),
    {
        let room: usize = self.cap - self.data.len();
        let n: usize = if bytes.len() <= room {
            bytes.len()
        } else {
            self.truncated = true;
            room
        };
        let mut i: usize = 0;
        while i < n
            invariant
                0 <= i <= n,
                n <= bytes@.len(),
                self.data@.len() == old(self).data@.len() + i,
                self.data@ == old(self).data@ + bytes@.take(i as int),
                self.cap == old(self).cap,
                self.data@.len() <= self.cap,
                self.truncated == (old(self).truncated || old(self).data@.len() + bytes@.len()
                    > old(self).cap),
                n == if old(self).data@.len() + bytes@.len() <= old(self).cap {
                    bytes@.len() as int
                } else {
                    old(self).cap - old(self).data@.len()
                },
            decreases n - i,
        {
            let b = bytes[i];
            self.data.push(b);
            proof {
                assert(self.data@ =~= old(self).data@ + bytes@.take(i + 1));
            }
            i += 1;
        }
        proof {
            if old(self).data@.len() + bytes@.len() <= old(self).cap {
                assert(bytes@.take(n as int) =~= bytes@);
            }
            assert(self.data@ =~= append_model(old(self).data@, old(self).cap as nat, bytes@));
        }
    }

    /// Returns the bytes captured so far between two offsets; offsets are
    /// clamped to the data captured so far.
    pub fn get_data(&self, start: usize, stop: Option<usize>) -> (r: Vec<u8>)
        ensures
            r@ == self.data@.subrange(
                spec_min(start as int, self.data@.len() as int),
                spec_max(
                    spec_min(
                        match stop {
                            Some(p) => p as int,
                            None => self.data@.len() as int,
                        },
                        self.data@.len() as int,
                    ),
                    spec_min(start as int, self.data@.len() as int),
                ),
            ),
    {
        let lo: usize = if start <= self.data.len() {
            start
        } else {
            self.data.len()
        };
        let mut hi: usize = match stop {
            Some(p) => if p <= self.data.len() {
                p
            } else {
                self.data.len()
            },
            None => self.data.len(),
        };
        if hi < lo {
            hi = lo;
        }
        let mut out: Vec<u8> = Vec::new();
        let mut i: usize = lo;
        while i < hi
            invariant
                lo <= i <= hi <= self.data@.len(),
                out@ == self.data@.subrange(lo as int, i as int),
            decreases hi - i,
        {
            let b = self.data[i];
            out.push(b);
            proof {
                assert(out@ =~= self.data@.subrange(lo as int, i + 1));
            }
            i += 1;
        }
        proof {
            assert(out@ =~= self.data@.subrange(
                spec_min(start as int, self.data@.len() as int),
                spec_max(
                    spec_min(
                        match stop {
                            Some(p) => p as int,
                            None => self.data@.len() as int,
                        },
                        self.data@.len() as int,
                    ),
                    spec_min(start as int, self.data@.len() as int),
                ),
            ));
        }
        out
    }
}

/// The smaller of two integers.
pub open spec fn spec_min(a: int, b: int) -> int {
    if a <= b {
        a
    } else {
        b
    }
}

/// The larger of two integers.
pub open spec fn spec_max(a: int, b: int) -> int {
    if a >= b {
        a
    } else {
        b
    }
}

/// The parent-side handler for one fd of one process.
#[derive(Debug)]
pub enum FdHandler {
    /// The child inherits the fd; nothing to do or report.
    Inherit,
    /// The fd is opened on the null device for reading.
    NullRead,
    /// The fd is opened on the null device for writing.
    NullWrite,
    /// The fd is opened on a file at a path.
    File { path: String },
    /// The fd is captured into a bounded in-memory buffer.
    Capture { format: CaptureFormat, buf: CaptureBuffer },
    /// The fd is duplicated from another fd of the same process.
    Dup { from: i32 },
    /// Parent-side setup failed; the failure is reported in results.
    Failed { message: String },
}

/// What one fd contributes to a process result.
#[derive(Clone, Debug)]
pub enum FdRes {
    File { path: String },
    Capture { format: CaptureFormat, data: Vec<u8>, truncated: bool },
    Error { message: String },
}

/// Whether an fd result is the one a handler reports: nothing for
/// inherited, null and duplicated fds; the path for a file; the bytes
/// captured so far for a capture; the message for a failed handler.
pub open spec fn matches_result(h: &FdHandler, r: Option<FdRes>) -> bool {
    match h {
        FdHandler::Inherit | FdHandler::NullRead | FdHandler::NullWrite | FdHandler::Dup {
            ..
        } => r is None,
        FdHandler::File { path } => match r {
            Some(FdRes::File { path: p }) => p@ == path@,
            _ => false,
        },
        FdHandler::Capture { format, buf } => match r {
            Some(FdRes::Capture { format: f, data, truncated }) => f == format && data@
                == buf.data@ && truncated == buf.truncated,
            _ => false,
        },
        FdHandler::Failed { message } => match r {
            Some(FdRes::Error { message: m }) => m@ == message@,
            _ => false,
        },
    }
}

impl FdHandler {
    /// Whether the handler is well formed.
    pub open spec fn wf(&self) -> bool {
        match self {
            FdHandler::Capture { buf, .. } => buf.wf(),
            _ => true,
        }
    }

    /// Projects the handler into its result.
    pub fn get_result(&self) -> (r: Option<FdRes>)
        ensures
            matches_result(self, r),
    {
        match self {
            FdHandler::Inherit => None,
            FdHandler::NullRead => None,
            FdHandler::NullWrite => None,
            FdHandler::Dup { .. } => None,
            FdHandler::File { path } => Some(FdRes::File { path: path.clone() }),
            FdHandler::Capture { format, buf } => {
                let mut data: Vec<u8> = Vec::new();
                let mut i: usize = 0;
                while i < buf.data.len()
                    invariant
                        0 <= i <= buf.data@.len(),
                        data@ == buf.data@.subrange(0, i as int),
                    decreases buf.data@.len() - i,
                {
                    let b = buf.data[i];
                    data.push(b);
                    proof {
                        assert(data@ =~= buf.data@.subrange(0, i + 1));
                    }
                    i += 1;
                }
                proof {
                    assert(data@ =~= buf.data@);
                }
                Some(FdRes::Capture { format: *format, data, truncated: buf.truncated })
            },
            FdHandler::Failed { message } => Some(FdRes::Error { message: message.clone() }),
        }
    }
}

/// The bytes a capture buffer holds after a series of appends.
pub open spec fn capture_after(cap: nat, writes: Seq<Seq<u8>>) -> Seq<u8>
    decreases writes.len(),
{
    if writes.len() == 0 {
        Seq::empty()
    } else {
        append_model(capture_after(cap, writes.drop_last()), cap, writes.last())
    }
}

/// The total length of a series of writes.
pub open spec fn total_len(writes: Seq<Seq<u8>>) -> nat
    decreases writes.len(),
{
    if writes.len() == 0 {
        0
    } else {
        total_len(writes.drop_last()) + writes.last().len()
    }
}

/// The concatenation of a series of writes.
pub open spec fn concat_writes(writes: Seq<Seq<u8>>) -> Seq<u8>
    decreases writes.len(),
{
    if writes.len() == 0 {
        Seq::empty()
    } else {
        concat_writes(writes.drop_last()) + writes.last()
    }
}

/// Capture round trip: a child that writes a series of chunks to a captured
/// fd, totalling no more than the cap, is reported with exactly those bytes,
/// in order, nothing lost and nothing added.
pub proof fn lemma_capture_round_trip(cap: nat, writes: Seq<Seq<u8>>)
    requires
        total_len(writes) <= cap,
    ensures
        capture_after(cap, writes) == concat_writes(writes),
        capture_after(cap, writes).len() == total_len(writes),
    decreases writes.len(),
{
    if writes.len() > 0 {
        lemma_capture_round_trip(cap, writes.drop_last());
    }
}

} // verus!
