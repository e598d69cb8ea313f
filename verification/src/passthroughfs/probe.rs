//! The probe for a case-insensitive file system.
//!
//! As git does for `core.ignorecase`, a probe file with a mixed-case name is
//! created in the mount root, and then looked for under the same name in
//! lower case. If that resolves to the same file, the file system folds case,
//! and deny patterns have to be matched without regard to case.
//!
//! This module names the files and decides what to do next; the file
//! operations are the caller's.
use vstd::prelude::*;

verus! {

/// Prefix of the probe file's name.
///
/// It holds capital letters, so that its lower-case form is another name.
pub const CASE_PROBE_PREFIX: &'static str = "MsBCaSePrObE";

/// `c` with an ASCII capital letter made small.
pub open spec fn ascii_lower_char(c: char) -> char {
    if 'A' <= c <= 'Z' {
        (c as u8 + 0x20) as char
    } else {
        c
    }
}

/// `s` with every ASCII capital letter made small.
pub open spec fn ascii_lower_chars(s: Seq<char>) -> Seq<char> {
    s.map_values(|c: char| ascii_lower_char(c))
}

/// `str::to_ascii_lowercase` maps each character to its ASCII lower case
/// equivalent, and leaves all others as they are.
pub assume_specification[ str::to_ascii_lowercase ](s: &str) -> (lower: String)
    ensures
        lower@ == ascii_lower_chars(s@),
;

/// The probe file's prefix in lower case.
pub fn case_validation_prefix() -> (prefix: String)
    ensures
        prefix@ == ascii_lower_chars(CASE_PROBE_PREFIX@),
        prefix@ == "msbcaseprobe"@,
{
    proof {
        reveal_strlit("MsBCaSePrObE");
        reveal_strlit("msbcaseprobe");
        assert(ascii_lower_chars(CASE_PROBE_PREFIX@) =~= "msbcaseprobe"@);
    }
    CASE_PROBE_PREFIX.to_ascii_lowercase()
}

/// The digit for `n`.
pub open spec fn digit(n: int) -> char {
    seq!['0', '1', '2', '3', '4', '5', '6', '7', '8', '9'][n]
}

/// `n` in decimal.
pub open spec fn decimal(n: nat) -> Seq<char>
    decreases n,
{
    if n < 10 {
        seq![digit(n as int)]
    } else {
        decimal(n / 10).push(digit((n % 10) as int))
    }
}

/// The name that a prefix, a process and a sequence number make.
pub open spec fn numbered(prefix: Seq<char>, pid: nat, seq: nat) -> Seq<char> {
    prefix.push('-') + decimal(pid).push('-') + decimal(seq)
}

/// The digit for `n`, as text.
fn digit_text(n: u64) -> (text: &'static str)
    requires
        n < 10,
    ensures
        text@ == seq![digit(n as int)],
{
    proof {
        reveal_strlit("0");
        reveal_strlit("1");
        reveal_strlit("2");
        reveal_strlit("3");
        reveal_strlit("4");
        reveal_strlit("5");
        reveal_strlit("6");
        reveal_strlit("7");
        reveal_strlit("8");
        reveal_strlit("9");
    }
    if n == 0 {
        "0"
    } else if n == 1 {
        "1"
    } else if n == 2 {
        "2"
    } else if n == 3 {
        "3"
    } else if n == 4 {
        "4"
    } else if n == 5 {
        "5"
    } else if n == 6 {
        "6"
    } else if n == 7 {
        "7"
    } else if n == 8 {
        "8"
    } else {
        "9"
    }
}

/// Appends `n` in decimal to `text`.
fn push_decimal(text: &mut String, n: u64)
    ensures
        final(text)@ == old(text)@ + decimal(n as nat),
    decreases n,
{
    if n >= 10 {
        push_decimal(text, n / 10);
    }
    text.append(digit_text(n % 10));
    assert(text@ =~= old(text)@ + decimal(n as nat));
}

/// The name that a prefix, a process and a sequence number make.
fn numbered_name(prefix: &str, pid: u32, seq: u64) -> (name: String)
    ensures
        name@ == numbered(prefix@, pid as nat, seq as nat),
{
    proof {
        reveal_strlit("-");
    }
    let mut name = String::new();
    name.append(prefix);
    name.append("-");
    push_decimal(&mut name, pid as u64);
    name.append("-");
    push_decimal(&mut name, seq);
    assert(name@ =~= numbered(prefix@, pid as nat, seq as nat));
    name
}

/// The names that a probe uses.
pub struct ProbeNames {
    /// The name under which the probe file is created.
    pub probe: String,
    /// The name under which it is looked for.
    pub validation: String,
}

/// The names for a probe, made of the process id and of a number that is
/// counted up within the process.
pub fn probe_names(pid: u32, seq: u64) -> (names: ProbeNames)
    ensures
        names.probe@ == numbered(CASE_PROBE_PREFIX@, pid as nat, seq as nat),
        names.validation@ == numbered(
            ascii_lower_chars(CASE_PROBE_PREFIX@),
            pid as nat,
            seq as nat,
        ),
{
    let prefix = case_validation_prefix();
    ProbeNames {
        probe: numbered_name(CASE_PROBE_PREFIX, pid, seq),
        validation: numbered_name(prefix.as_str(), pid, seq),
    }
}

/// The next thing that a probe does.
#[derive(Clone, Copy, Debug, PartialEq, Eq, Structural)]
pub enum ProbeStep {
    /// Create the probe file, which must not exist yet.
    Create,
    /// Write to it.
    Write,
    /// Look whether the validation name resolves to it.
    Check,
    /// Remove it.
    Remove {
        /// Whether the file system is taken to be case-insensitive so far.
        insensitive: bool,
    },
    /// Nothing: the probe is over.
    Done {
        /// Whether the file system is taken to be case-insensitive.
        insensitive: bool,
    },
}

impl ProbeStep {
    /// What comes after this step, which succeeded or not.
    ///
    /// A probe that fails is taken for a case-insensitive file system: hiding
    /// a few names too many is better than letting a pattern be bypassed by a
    /// name in another case. A file that was created is removed in any case.
    pub open spec fn after(self, ok: bool) -> ProbeStep {
        match self {
            ProbeStep::Create => if ok {
                ProbeStep::Write
            } else {
                ProbeStep::Done { insensitive: true }
            },
            ProbeStep::Write => if ok {
                ProbeStep::Check
            } else {
                ProbeStep::Remove { insensitive: true }
            },
            ProbeStep::Check => ProbeStep::Remove { insensitive: ok },
            ProbeStep::Remove { insensitive } => ProbeStep::Done {
                insensitive: insensitive || !ok,
            },
            ProbeStep::Done { insensitive } => ProbeStep::Done { insensitive },
        }
    }

    /// The first step of a probe.
    pub fn first() -> (step: ProbeStep)
        ensures
            step == ProbeStep::Create,
    {
        ProbeStep::Create
    }

    /// What comes after this step, which succeeded or not.
    pub fn next(self, ok: bool) -> (step: ProbeStep)
        ensures
            step == self.after(ok),
    {
        match self {
            ProbeStep::Create if ok => ProbeStep::Write,
            ProbeStep::Create => ProbeStep::Done { insensitive: true },
            ProbeStep::Write if ok => ProbeStep::Check,
            ProbeStep::Write => ProbeStep::Remove { insensitive: true },
            ProbeStep::Check => ProbeStep::Remove { insensitive: ok },
            ProbeStep::Remove { insensitive } => ProbeStep::Done {
                insensitive: insensitive || !ok,
            },
            ProbeStep::Done { insensitive } => ProbeStep::Done { insensitive },
        }
    }
}

/// **Law.** A probe finds what the validation name shows if every step
/// succeeds.
pub proof fn law_probe_finds_what_the_name_shows(found: bool)
    ensures
        ProbeStep::Create.after(true).after(true).after(found).after(true) == (ProbeStep::Done {
            insensitive: found,
        }),
{
}

/// **Law.** A probe in which creating, writing or removing the file fails
/// takes the file system for case-insensitive.
pub proof fn law_failed_probe_is_insensitive(found: bool, removed: bool)
    ensures
        ProbeStep::Create.after(false) == (ProbeStep::Done { insensitive: true }),
        ProbeStep::Create.after(true).after(false).after(removed) == (ProbeStep::Done {
            insensitive: true,
        }),
        ProbeStep::Create.after(true).after(true).after(found).after(false) == (ProbeStep::Done {
            insensitive: true,
        }),
{
}

/// **Law.** A probe file that was created is removed, whether it could be
/// written or not, and whatever the check finds.
pub proof fn law_probe_removes_its_file(found: bool)
    ensures
        ProbeStep::Create.after(true).after(true).after(found) is Remove,
        ProbeStep::Create.after(true).after(false) is Remove,
{
}

/// **Law.** A probe that is over stays over.
pub proof fn law_finished_probe_stays_finished(insensitive: bool, ok: bool)
    ensures
        (ProbeStep::Done { insensitive }).after(ok) == (ProbeStep::Done { insensitive }),
{
}

/// **Law.** The two names of a probe are different, and differ only in the
/// case of their letters.
pub proof fn law_probe_names_differ_in_case(pid: nat, seq: nat)
    ensures
        ascii_lower_chars(numbered(CASE_PROBE_PREFIX@, pid, seq)) == numbered(
            ascii_lower_chars(CASE_PROBE_PREFIX@),
            pid,
            seq,
        ),
        numbered(CASE_PROBE_PREFIX@, pid, seq) != numbered(
            ascii_lower_chars(CASE_PROBE_PREFIX@),
            pid,
            seq,
        ),
{
    reveal_strlit("MsBCaSePrObE");
    lemma_decimal_digits(pid);
    lemma_decimal_digits(seq);
    let probe = numbered(CASE_PROBE_PREFIX@, pid, seq);
    let validation = numbered(ascii_lower_chars(CASE_PROBE_PREFIX@), pid, seq);
    assert(ascii_lower_chars(probe) =~= validation);
    assert(probe[0] == 'M');
    assert(validation[0] == 'm');
}

/// **Law.** Probes of different processes, or with different numbers, use
/// different names.
pub proof fn law_probe_names_are_unique(
    prefix: Seq<char>,
    pid: nat,
    seq: nat,
    other_pid: nat,
    other_seq: nat,
)
    requires
        numbered(prefix, pid, seq) == numbered(prefix, other_pid, other_seq),
    ensures
        pid == other_pid,
        seq == other_seq,
{
    let a = numbered(prefix, pid, seq);
    let b = numbered(prefix, other_pid, other_seq);
    let start: int = prefix.len() as int + 1;
    let (m, n): (int, int) = (decimal(pid).len() as int, decimal(other_pid).len() as int);
    lemma_decimal_digits(pid);
    lemma_decimal_digits(other_pid);
    assert(a[start + m] == '-');
    assert(b[start + n] == '-');
    if m < n {
        assert(b[start + m] == decimal(other_pid)[m]);
    }
    if n < m {
        assert(a[start + n] == decimal(pid)[n]);
    }
    assert(decimal(pid) =~= a.subrange(start, start + m));
    assert(decimal(other_pid) =~= b.subrange(start, start + n));
    assert(decimal(seq) =~= a.skip(start + m + 1));
    assert(decimal(other_seq) =~= b.skip(start + n + 1));
    lemma_decimal_is_injective(pid, other_pid);
    lemma_decimal_is_injective(seq, other_seq);
}

proof fn lemma_decimal_digits(n: nat)
    ensures
        decimal(n).len() > 0,
        forall|i: int| 0 <= i < decimal(n).len() ==> '0' <= #[trigger] decimal(n)[i] <= '9',
    decreases n,
{
    if n >= 10 {
        lemma_decimal_digits(n / 10);
    }
}

proof fn lemma_decimal_is_injective(m: nat, n: nat)
    requires
        decimal(m) == decimal(n),
    ensures
        m == n,
    decreases m,
{
    lemma_decimal_digits(m / 10);
    lemma_decimal_digits(n / 10);
    assert(decimal(m).last() == digit((m % 10) as int));
    assert(decimal(n).last() == digit((n % 10) as int));
    if m >= 10 && n >= 10 {
        assert(decimal(m).drop_last() =~= decimal(m / 10));
        assert(decimal(n).drop_last() =~= decimal(n / 10));
        lemma_decimal_is_injective(m / 10, n / 10);
    }
}

/// The number that digits write, read from the left.
pub open spec fn number_of(text: Seq<char>) -> int
    decreases text.len(),
{
    if text.len() == 0 {
        0
    } else {
        10 * number_of(text.drop_last()) + (text.last() as int - '0' as int)
    }
}

/// **Law.** A number in decimal reads back as that number. It is written in
/// digits, without a zero in front unless it is zero.
pub proof fn law_decimal_reads_back(n: nat, i: int)
    ensures
        number_of(decimal(n)) == n,
        0 <= i < decimal(n).len() ==> '0' <= decimal(n)[i] <= '9',
        decimal(n).len() > 0,
        n > 0 ==> decimal(n)[0] != '0',
    decreases n,
{
    lemma_decimal_digits(n);
    reveal_with_fuel(number_of, 2);
    if n >= 10 {
        law_decimal_reads_back(n / 10, 0);
        lemma_decimal_digits(n / 10);
        assert(decimal(n).drop_last() =~= decimal(n / 10));
        assert(decimal(n)[0] == decimal(n / 10)[0]);
    } else {
        assert(decimal(n).drop_last() =~= Seq::empty());
    }
}

/// **Law.** A probe's name starts with its prefix; then follow a hyphen and
/// digits that read back as the process, and a hyphen and digits that read back
/// as the number.
pub proof fn law_probe_name_reads_back(prefix: Seq<char>, pid: nat, seq: nat)
    ensures
        ({
            let name = numbered(prefix, pid, seq);
            let start: int = prefix.len() as int + 1;
            let end: int = start + decimal(pid).len();
            &&& prefix.is_prefix_of(name)
            &&& name[start - 1] == '-' && name[end] == '-'
            &&& number_of(name.subrange(start, end)) == pid
            &&& number_of(name.skip(end + 1)) == seq
            &&& start < end && end + 1 < name.len()
        }),
{
    let name = numbered(prefix, pid, seq);
    let start: int = prefix.len() as int + 1;
    let end: int = start + decimal(pid).len();
    law_decimal_reads_back(pid, 0);
    law_decimal_reads_back(seq, 0);
    assert(prefix =~= name.take(prefix.len() as int));
    assert(name.subrange(start, end) =~= decimal(pid));
    assert(name.skip(end + 1) =~= decimal(seq));
}

/// **Law.** A probe goes from one step to the next only where the step
/// succeeded: nothing is written before the file is created, and nothing is
/// looked for before it is written.
pub proof fn law_probe_goes_step_by_step(step: ProbeStep, ok: bool)
    ensures
        step.after(ok) is Write <==> step is Create && ok,
        step.after(ok) is Check <==> step is Write && ok,
        !(step.after(ok) is Create),
        step.after(ok) is Done <==> step is Done || step is Remove || (step is Create && !ok),
{
}

} // verus!
