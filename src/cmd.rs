use vstd::prelude::*;
use vstd::string::{StrSliceExecFns, StringExecFns};

verus! {

/// The command record that the client sends to the daemon.
#[derive(Debug, Clone)]
pub struct CLI {
    pub command: Commands,
}

/// The verbs of the control plane.
#[derive(Debug, Clone)]
pub enum Commands {
    /// Run a container from an image.
    Run(RunArgs),
    /// Start a stopped container.
    Start(StartArgs),
    /// Enter a running container.
    Exec(ExecArgs),
    /// Stop a container.
    Stop(StopArgs),
    /// Remove a stopped container.
    RM(RMArgs),
    /// List containers.
    PS(PSArgs),
    /// Show a container's log.
    Logs(LogsArgs),
    /// Commit a container to an image.
    Commit(CommitArgs),
    /// Manage networks.
    Network(NetworkCommands),
}

#[derive(Debug, Clone)]
pub struct RunArgs {
    /// Name of the container.
    pub name: Option<String>,
    /// Memory limit in bytes.
    pub memory: Option<i64>,
    /// Volume to bind, as `host:container`.
    pub volume: Option<String>,
    /// Run without attaching the terminal.
    pub detach: bool,
    /// Image tarball to run.
    pub image: String,
    /// Program and arguments to run in the container.
    pub command: Vec<String>,
}

#[derive(Debug, Clone)]
pub struct StartArgs {
    pub name: String,
    pub interactive: bool,
}

#[derive(Debug, Clone)]
pub struct ExecArgs {
    pub name: String,
    pub command: Vec<String>,
}

#[derive(Debug, Clone)]
pub struct StopArgs {
    pub name: String,
}

#[derive(Debug, Clone)]
pub struct RMArgs {
    pub name: String,
}

#[derive(Debug, Clone)]
pub struct PSArgs {
    pub all: bool,
}

#[derive(Debug, Clone)]
pub struct LogsArgs {
    pub name: String,
}

#[derive(Debug, Clone)]
pub struct CommitArgs {
    /// Name of the container to commit.
    pub name: String,
    /// Name of the image to write.
    pub image: String,
}

#[derive(Debug, Clone)]
pub enum NetworkCommands {
    /// Create a network.
    Create(NetCreateArgs),
}

#[derive(Debug, Clone)]
pub struct NetCreateArgs {
    pub name: String,
    pub subnet: String,
    pub driver: String,
}

/// The characters that `char::is_whitespace` accepts (Unicode `White_Space`).
pub open spec fn is_space(c: char) -> bool {
    ('\u{9}' <= c && c <= '\u{d}') || c == ' ' || c == '\u{85}' || c == '\u{a0}' || c
        == '\u{1680}' || ('\u{2000}' <= c && c <= '\u{200a}') || c == '\u{2028}' || c
        == '\u{2029}' || c == '\u{202f}' || c == '\u{205f}' || c == '\u{3000}'
}

/// The text with leading white space removed.
pub open spec fn trim_start(s: Seq<char>) -> Seq<char>
    decreases s.len(),
{
    if s.len() > 0 && is_space(s[0]) {
        trim_start(s.drop_first())
    } else {
        s
    }
}

/// The text with trailing white space removed.
pub open spec fn trim_end(s: Seq<char>) -> Seq<char>
    decreases s.len(),
{
    if s.len() > 0 && is_space(s.last()) {
        trim_end(s.drop_last())
    } else {
        s
    }
}

pub open spec fn trim(s: Seq<char>) -> Seq<char> {
    trim_end(trim_start(s))
}

pub open spec fn is_digit(c: char) -> bool {
    '0' <= c && c <= '9'
}

pub open spec fn all_digits(s: Seq<char>) -> bool {
    forall|i: int| 0 <= i < s.len() ==> is_digit(#[trigger] s[i])
}

/// The value of a string of decimal digits.
pub open spec fn digits_value(s: Seq<char>) -> int
    decreases s.len(),
{
    if s.len() == 0 {
        0
    } else {
        digits_value(s.drop_last()) * 10 + (s.last() as int - '0' as int)
    }
}

/// The multiplier of a size unit: `k`, `m` or `g`, in either case.
pub open spec fn unit_factor(c: char) -> Option<int> {
    if c == 'k' || c == 'K' {
        Some(1024int)
    } else if c == 'm' || c == 'M' {
        Some(1024int * 1024)
    } else if c == 'g' || c == 'G' {
        Some(1024int * 1024 * 1024)
    } else {
        None
    }
}

/// The byte count that a memory size denotes: a non-empty run of decimal
/// digits, an optional unit, and white space around them.
pub open spec fn memory_size_of(s: Seq<char>) -> Option<int> {
    let t = trim(s);
    if t.len() > 0 && unit_factor(t.last()) is Some {
        let body = t.drop_last();
        if body.len() > 0 && all_digits(body) {
            Some(digits_value(body) * unit_factor(t.last())->0)
        } else {
            None
        }
    } else if t.len() > 0 && all_digits(t) {
        Some(digits_value(t))
    } else {
        None
    }
}

proof fn lemma_trim_start_skip(s: Seq<char>, i: int)
    requires
        0 <= i <= s.len(),
        forall|j: int| 0 <= j < i ==> is_space(#[trigger] s[j]),
    ensures
        trim_start(s) == trim_start(s.subrange(i, s.len() as int)),
    decreases i,
{
    if i > 0 {
        assert(is_space(s[0]));
        assert(s.drop_first() == s.subrange(1, s.len() as int));
        assert forall|j: int| 0 <= j < i - 1 implies is_space(#[trigger] s.drop_first()[j]) by {
            assert(s.drop_first()[j] == s[j + 1]);
        }
        lemma_trim_start_skip(s.drop_first(), i - 1);
        assert(s.drop_first().subrange(i - 1, s.drop_first().len() as int) == s.subrange(
            i,
            s.len() as int,
        ));
    } else {
        assert(s.subrange(0, s.len() as int) == s);
    }
}

proof fn lemma_trim_end_skip(s: Seq<char>, k: int)
    requires
        0 <= k <= s.len(),
        forall|j: int| k <= j < s.len() ==> is_space(#[trigger] s[j]),
    ensures
        trim_end(s) == trim_end(s.subrange(0, k)),
    decreases s.len() - k,
{
    if k < s.len() {
        assert(is_space(s[s.len() - 1]));
        assert(s.drop_last() == s.subrange(0, s.len() - 1));
        assert forall|j: int| k <= j < s.drop_last().len() implies is_space(
            #[trigger] s.drop_last()[j],
        ) by {
            assert(s.drop_last()[j] == s[j]);
        }
        lemma_trim_end_skip(s.drop_last(), k);
        assert(s.drop_last().subrange(0, k) == s.subrange(0, k));
    } else {
        assert(s.subrange(0, k) == s);
    }
}

pub proof fn lemma_digits_value_push(s: Seq<char>, c: char)
    ensures
        digits_value(s.push(c)) == digits_value(s) * 10 + (c as int - '0' as int),
{
    assert(s.push(c).drop_last() == s);
}

proof fn lemma_digits_value_nonneg(s: Seq<char>)
    requires
        all_digits(s),
    ensures
        digits_value(s) >= 0,
    decreases s.len(),
{
    if s.len() > 0 {
        assert(all_digits(s.drop_last())) by {
            assert forall|i: int| 0 <= i < s.drop_last().len() implies is_digit(
                #[trigger] s.drop_last()[i],
            ) by {
                assert(s.drop_last()[i] == s[i]);
            }
        }
        lemma_digits_value_nonneg(s.drop_last());
        assert(is_digit(s[s.len() - 1]));
    }
}

/// The value of `s[from..to]` when it is all digits and at most `limit`.
pub(crate) fn digits_up_to(s: &str, from: usize, to: usize, limit: u64) -> (r: Option<u64>)
    requires
        from <= to <= s@.len(),
    ensures
        ({
            let d = s@.subrange(from as int, to as int);
            match r {
                Some(v) => all_digits(d) && v as int == digits_value(d) && v <= limit,
                None => !all_digits(d) || digits_value(d) > limit,
            }
        }),
{
    let mut v: u64 = 0;
    let mut i: usize = from;
    while i < to
        invariant
            from <= i <= to <= s@.len(),
            all_digits(s@.subrange(from as int, i as int)),
            v as int == digits_value(s@.subrange(from as int, i as int)),
            v <= limit,
        decreases to - i,
    {
        let c = s.get_char(i);
        let ghost prev = s@.subrange(from as int, i as int);
        assert(s@.subrange(from as int, i + 1) == prev.push(c));
        proof {
            lemma_digits_value_push(prev, c);
        }
        if !('0' <= c && c <= '9') {
            assert(!is_digit(s@.subrange(from as int, to as int)[i - from]));
            return None;
        }
        let d = (c as u32 - '0' as u32) as u64;
        if d > limit || v > (limit - d) / 10 {
            proof {
                let full = s@.subrange(from as int, to as int);
                if all_digits(full) {
                    lemma_digits_value_ge_prefix(full, (i + 1 - from) as int);
                    assert(full.subrange(0, (i + 1 - from) as int) == prev.push(c));
                }
            }
            return None;
        }
        v = v * 10 + d;
        i = i + 1;
    }
    Some(v)
}

proof fn lemma_digits_value_ge_prefix(s: Seq<char>, k: int)
    requires
        all_digits(s),
        0 <= k <= s.len(),
    ensures
        digits_value(s) >= digits_value(s.subrange(0, k)),
    decreases s.len() - k,
{
    if k < s.len() {
        let t = s.drop_last();
        assert(all_digits(t)) by {
            assert forall|i: int| 0 <= i < t.len() implies is_digit(#[trigger] t[i]) by {
                assert(t[i] == s[i]);
            }
        }
        lemma_digits_value_ge_prefix(t, k);
        assert(t.subrange(0, k) == s.subrange(0, k));
        lemma_digits_value_nonneg(t);
        assert(is_digit(s[s.len() - 1]));
    } else {
        assert(s.subrange(0, k) == s);
    }
}

fn is_space_char(c: char) -> (r: bool)
    ensures
        r == is_space(c),
{
    ('\u{9}' <= c && c <= '\u{d}') || c == ' ' || c == '\u{85}' || c == '\u{a0}' || c
        == '\u{1680}' || ('\u{2000}' <= c && c <= '\u{200a}') || c == '\u{2028}' || c
        == '\u{2029}' || c == '\u{202f}' || c == '\u{205f}' || c == '\u{3000}'
}

/// The bounds `(start, end)` of `s` without its surrounding white space.
fn trim_bounds(s: &str) -> (r: (usize, usize))
    ensures
        r.0 <= r.1 <= s@.len(),
        trim(s@) == s@.subrange(r.0 as int, r.1 as int),
{
    let n = s.unicode_len();
    let mut start: usize = 0;
    while start < n && is_space_char(s.get_char(start))
        invariant
            start <= n == s@.len(),
            forall|j: int| 0 <= j < start ==> is_space(#[trigger] s@[j]),
        decreases n - start,
    {
        start = start + 1;
    }
    let ghost rest = s@.subrange(start as int, n as int);
    proof {
        lemma_trim_start_skip(s@, start as int);
        if rest.len() > 0 {
            assert(rest[0] == s@[start as int]);
        }
        assert(trim_start(rest) == rest);
    }
    let mut end: usize = n;
    while end > start && is_space_char(s.get_char(end - 1))
        invariant
            start <= end <= n == s@.len(),
            rest == s@.subrange(start as int, n as int),
            forall|j: int| end - start <= j < rest.len() ==> is_space(#[trigger] rest[j]),
        decreases end,
    {
        assert(rest[end - 1 - start] == s@[end - 1]);
        end = end - 1;
    }
    proof {
        lemma_trim_end_skip(rest, end - start);
        let body = rest.subrange(0, end - start);
        assert(body == s@.subrange(start as int, end as int));
        if body.len() > 0 {
            assert(body.last() == s@[end - 1]);
        }
        assert(trim_end(body) == body);
    }
    (start, end)
}

/// Reads a memory size such as `512`, `100k`, `64M` or `1g` into bytes.
pub fn parse_memory_size(input: &str) -> (r: Result<i64, String>)
    ensures
        match r {
            Ok(v) => memory_size_of(input@) == Some(v as int),
            Err(_) => memory_size_of(input@) is None || memory_size_of(input@)->0 > i64::MAX,
        },
{
    let (start, end) = trim_bounds(input);
    let ghost t = input@.subrange(start as int, end as int);
    if end > start {
        let last = input.get_char(end - 1);
        assert(t.last() == last);
        let factor: u64 = if last == 'k' || last == 'K' {
            1024
        } else if last == 'm' || last == 'M' {
            1024 * 1024
        } else if last == 'g' || last == 'G' {
            1024 * 1024 * 1024
        } else {
            0
        };
        if factor > 0 {
            assert(t.drop_last() == input@.subrange(start as int, end - 1));
            if end - 1 == start {
                return Err(String::from_str("Invalid memory size"));
            }
            let limit: u64 = 0x7fff_ffff_ffff_ffff / factor;
            match digits_up_to(input, start, end - 1, limit) {
                Some(v) => {
                    assert(v * factor <= 0x7fff_ffff_ffff_ffffu64) by (nonlinear_arith)
                        requires
                            v <= limit,
                            limit == 0x7fff_ffff_ffff_ffffu64 / factor,
                            factor > 0,
                    ;
                    return Ok((v * factor) as i64);
                },
                None => {
                    proof {
                        let body = t.drop_last();
                        if all_digits(body) {
                            assert(digits_value(body) * factor > 0x7fff_ffff_ffff_ffffint)
                                by (nonlinear_arith)
                                requires
                                    digits_value(body) > limit,
                                    limit == 0x7fff_ffff_ffff_ffffu64 / factor,
                                    factor > 0,
                            ;
                        }
                    }
                    return Err(String::from_str("Invalid memory size"));
                },
            }
        }
        match digits_up_to(input, start, end, 0x7fff_ffff_ffff_ffff) {
            Some(v) => Ok(v as i64),
            None => Err(String::from_str("Invalid memory size")),
        }
    } else {
        Err(String::from_str("Invalid memory size"))
    }
}

/// `s` is a volume `host:container`: one `:` at `p`, with text on both sides.
pub open spec fn volume_split_at(s: Seq<char>, p: int) -> bool {
    &&& 0 < p < s.len() - 1
    &&& s[p] == ':'
    &&& forall|j: int| 0 <= j < s.len() && j != p ==> s[j] != ':'
}

/// Splits a volume `host:container` into its two paths.
pub fn parse_volume(volume: &str) -> (r: Result<(String, String), String>)
    ensures
        match r {
            Ok((h, c)) => exists|p: int|
                volume_split_at(volume@, p) && h@ == volume@.subrange(0, p) && c@
                    == volume@.subrange(p + 1, volume@.len() as int),
            Err(_) => forall|p: int| !volume_split_at(volume@, p),
        },
{
    let n = volume.unicode_len();
    let mut count: usize = 0;
    let mut pos: usize = 0;
    let mut i: usize = 0;
    while i < n
        invariant
            i <= n == volume@.len(),
            count <= i,
            count == 0 ==> forall|j: int| 0 <= j < i ==> volume@[j] != ':',
            count == 1 ==> pos < i && volume@[pos as int] == ':' && forall|j: int|
                0 <= j < i && j != pos ==> volume@[j] != ':',
            count >= 2 ==> exists|a: int, b: int|
                0 <= a < b < i && volume@[a] == ':' && volume@[b] == ':',
        decreases n - i,
    {
        if volume.get_char(i) == ':' {
            if count == 1 {
                assert(volume@[pos as int] == ':' && volume@[i as int] == ':');
            }
            if count == 0 {
                pos = i;
            }
            if count < 2 {
                count = count + 1;
            }
        }
        i = i + 1;
    }
    if count == 1 && pos > 0 && pos + 1 < n {
        let h = volume.substring_char(0, pos);
        let c = volume.substring_char(pos + 1, n);
        assert(volume_split_at(volume@, pos as int));
        Ok((h.to_owned(), c.to_owned()))
    } else {
        if count >= 2 {
            assert forall|p: int| !volume_split_at(volume@, p) by {
                let (a, b) = choose|a: int, b: int|
                    0 <= a < b < n && volume@[a] == ':' && volume@[b] == ':';
                if volume_split_at(volume@, p) {
                    assert(a == p || volume@[a] != ':');
                    assert(b == p || volume@[b] != ':');
                }
            }
        } else if count == 1 {
            assert forall|p: int| !volume_split_at(volume@, p) by {
                if volume_split_at(volume@, p) {
                    assert(p == pos);
                }
            }
        }
        Err(String::from_str("Invalid volume"))
    }
}

} // verus!
