use vstd::prelude::*;
use crate::fmt::{dec_digits, push_decimal};

verus! {

/// The outcome of one toolchain check.
#[derive(Debug, Clone, Copy, PartialEq, Eq, Structural)]
pub enum CheckStatus {
    Good,
    Warn,
    Fail,
    Skip,
}

/// One toolchain check: what was checked, its outcome, details and a suggested fix.
#[derive(Debug, Clone)]
pub struct Toolcheck {
    pub name: String,
    pub status: CheckStatus,
    pub details: String,
    pub fix: Option<String>,
}

/// The results of all toolchain checks.
#[derive(Debug)]
pub struct ToolchainReport {
    pub checks: Vec<Toolcheck>,
}

/// What the toolchain check looks at.
#[derive(Debug, Clone)]
pub struct ToolchainOptions {
    pub wasi_sysroot: Option<String>,
    pub check_cpp: bool,
    pub check_wasmtime: bool,
}

/// How many of the first `n` checks have status `st`.
pub open spec fn count_status(checks: Seq<Toolcheck>, st: CheckStatus, n: int) -> nat
    decreases n,
{
    if n <= 0 {
        0
    } else {
        count_status(checks, st, n - 1) + if checks[n - 1].status == st {
            1nat
        } else {
            0nat
        }
    }
}

proof fn lemma_count_bound(checks: Seq<Toolcheck>, st: CheckStatus, n: int)
    requires
        0 <= n,
    ensures
        count_status(checks, st, n) <= n,
    decreases n,
{
    if n > 0 {
        lemma_count_bound(checks, st, n - 1);
    }
}

/// The icon of a status.
pub open spec fn icon(st: CheckStatus) -> Seq<char> {
    match st {
        CheckStatus::Good => seq!['\u{2705}'],
        CheckStatus::Warn => seq!['\u{26a0}', '\u{fe0f}'],
        CheckStatus::Fail => seq!['\u{274c}'],
        CheckStatus::Skip => seq!['\u{23ed}'],
    }
}

/// The lines of one check: icon, name and details; then the fix, when there is one.
pub open spec fn check_text(c: Toolcheck) -> Seq<char> {
    icon(c.status) + seq![' '] + c.name@ + seq![':', ' '] + c.details@ + seq!['\n'] + match c.fix {
        Some(f) => seq![' ', ' ', ' ', 'f', 'i', 'x', ':', ' '] + f@ + seq!['\n'],
        None => Seq::empty(),
    }
}

pub open spec fn checks_text(checks: Seq<Toolcheck>, n: int) -> Seq<char>
    decreases n,
{
    if n <= 0 {
        Seq::empty()
    } else {
        checks_text(checks, n - 1) + check_text(checks[n - 1])
    }
}

fn icon_str(st: CheckStatus) -> (r: &'static str)
    ensures
        r@ == icon(st),
{
    proof {
        reveal_strlit("\u{2705}");
        reveal_strlit("\u{26a0}\u{fe0f}");
        reveal_strlit("\u{274c}");
        reveal_strlit("\u{23ed}");
    }
    let r = match st {
        CheckStatus::Good => "\u{2705}",
        CheckStatus::Warn => "\u{26a0}\u{fe0f}",
        CheckStatus::Fail => "\u{274c}",
        CheckStatus::Skip => "\u{23ed}",
    };
    proof {
        assert(r@ =~= icon(st));
    }
    r
}

impl ToolchainReport {
    /// The number of checks with each status: (ok, warn, err, skip).
    pub fn summary_counts(&self) -> (r: (usize, usize, usize, usize))
        ensures
            r.0 == count_status(self.checks@, CheckStatus::Good, self.checks@.len() as int),
            r.1 == count_status(self.checks@, CheckStatus::Warn, self.checks@.len() as int),
            r.2 == count_status(self.checks@, CheckStatus::Fail, self.checks@.len() as int),
            r.3 == count_status(self.checks@, CheckStatus::Skip, self.checks@.len() as int),
    {
        let mut ok: usize = 0;
        let mut warn: usize = 0;
        let mut err: usize = 0;
        let mut skip: usize = 0;
        let mut i: usize = 0;
        while i < self.checks.len()
            invariant
                i <= self.checks@.len(),
                ok == count_status(self.checks@, CheckStatus::Good, i as int),
                warn == count_status(self.checks@, CheckStatus::Warn, i as int),
                err == count_status(self.checks@, CheckStatus::Fail, i as int),
                skip == count_status(self.checks@, CheckStatus::Skip, i as int),
            decreases self.checks@.len() - i,
        {
            proof {
                lemma_count_bound(self.checks@, CheckStatus::Good, i as int);
                lemma_count_bound(self.checks@, CheckStatus::Warn, i as int);
                lemma_count_bound(self.checks@, CheckStatus::Fail, i as int);
                lemma_count_bound(self.checks@, CheckStatus::Skip, i as int);
            }
            match self.checks[i].status {
                CheckStatus::Good => ok = ok + 1,
                CheckStatus::Warn => warn = warn + 1,
                CheckStatus::Fail => err = err + 1,
                CheckStatus::Skip => skip = skip + 1,
            }
            i = i + 1;
        }
        (ok, warn, err, skip)
    }

    /// The report as text: a summary line of the counts, then each check.
    pub fn to_text(&self) -> (r: String)
        ensures
            r@ == "Toolchain checks: \u{2705} "@ + dec_digits(
                count_status(self.checks@, CheckStatus::Good, self.checks@.len() as int),
            ) + "  \u{26a0}\u{fe0f} "@ + dec_digits(
                count_status(self.checks@, CheckStatus::Warn, self.checks@.len() as int),
            ) + "  \u{274c} "@ + dec_digits(
                count_status(self.checks@, CheckStatus::Fail, self.checks@.len() as int),
            ) + "  \u{23ed} "@ + dec_digits(
                count_status(self.checks@, CheckStatus::Skip, self.checks@.len() as int),
            ) + " \n"@ + checks_text(self.checks@, self.checks@.len() as int),
    {
        let (ok, warn, err, skip) = self.summary_counts();
        let mut out = String::new();
        out.append("Toolchain checks: \u{2705} ");
        push_decimal(&mut out, ok as u64);
        out.append("  \u{26a0}\u{fe0f} ");
        push_decimal(&mut out, warn as u64);
        out.append("  \u{274c} ");
        push_decimal(&mut out, err as u64);
        out.append("  \u{23ed} ");
        push_decimal(&mut out, skip as u64);
        out.append(" \n");
        let ghost head = out@;
        proof {
            assert(head =~= "Toolchain checks: \u{2705} "@ + dec_digits(ok as nat) + "  \u{26a0}\u{fe0f} "@
                + dec_digits(warn as nat) + "  \u{274c} "@ + dec_digits(err as nat) + "  \u{23ed} "@
                + dec_digits(skip as nat) + " \n"@);
        }
        let mut i: usize = 0;
        while i < self.checks.len()
            invariant
                i <= self.checks@.len(),
                out@ == head + checks_text(self.checks@, i as int),
            decreases self.checks@.len() - i,
        {
            push_check(&mut out, &self.checks[i]);
            proof {
                assert(out@ =~= head + checks_text(self.checks@, i + 1));
            }
            i = i + 1;
        }
        out
    }
}

fn push_check(out: &mut String, c: &Toolcheck)
    ensures
        final(out)@ == old(out)@ + check_text(*c),
{
    proof {
        reveal_strlit(" ");
        reveal_strlit(": ");
        reveal_strlit("\n");
        reveal_strlit("   fix: ");
    }
    out.append(icon_str(c.status));
    out.append(" ");
    out.append(c.name.as_str());
    out.append(": ");
    out.append(c.details.as_str());
    out.append("\n");
    match &c.fix {
        Some(f) => {
            out.append("   fix: ");
            out.append(f.as_str());
            out.append("\n");
        },
        None => {},
    }
    proof {
        assert(final(out)@ =~= old(out)@ + check_text(*c));
    }
}

} // verus!
