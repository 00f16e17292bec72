//! The benchmark program: its options and its tables.
use vstd::prelude::*;
use vstd::string::StringExecFns;

use crate::text::{
    left_aligned, push_left_aligned, push_right_aligned, right_aligned, same_text,
};

verus! {

broadcast use vstd::string::group_string_axioms;

/// What to run.
#[derive(Clone, Copy, Debug, PartialEq, Eq, Structural)]
pub struct BenchFlags {
    pub codec: bool,
    pub fec: bool,
    pub crypto: bool,
    pub pipeline: bool,
}

/// What the arguments ask for.
#[derive(Debug)]
pub enum BenchRequest {
    Help,
    /// Benchmarks to run, and the loss for FEC where one is given.
    Run { flags: BenchFlags, loss: Option<String> },
    Unknown { option: String },
}

pub open spec fn all_flags() -> BenchFlags {
    BenchFlags { codec: true, fec: true, crypto: true, pipeline: true }
}

pub open spec fn no_flags() -> BenchFlags {
    BenchFlags { codec: false, fec: false, crypto: false, pipeline: false }
}

pub open spec fn args_view(args: Seq<String>) -> Seq<Seq<char>> {
    args.map_values(|a: String| a@)
}

pub open spec fn asks_help(args: Seq<Seq<char>>) -> bool {
    exists|i: int| 0 <= i < args.len() && (#[trigger] args[i] == "--help"@ || args[i] == "-h"@)
}

/// What the arguments from `i` on add to some flags and a loss; an option
/// that is not known where there is one.
pub open spec fn options_from(
    args: Seq<Seq<char>>,
    i: int,
    flags: BenchFlags,
    loss: Option<Seq<char>>,
) -> Result<(BenchFlags, Option<Seq<char>>), Seq<char>>
    decreases args.len() + 1 - i,
{
    if i >= args.len() {
        Ok((flags, loss))
    } else if args[i] == "--codec"@ {
        options_from(args, i + 1, BenchFlags { codec: true, ..flags }, loss)
    } else if args[i] == "--fec"@ {
        options_from(args, i + 1, BenchFlags { fec: true, ..flags }, loss)
    } else if args[i] == "--crypto"@ {
        options_from(args, i + 1, BenchFlags { crypto: true, ..flags }, loss)
    } else if args[i] == "--pipeline"@ {
        options_from(args, i + 1, BenchFlags { pipeline: true, ..flags }, loss)
    } else if args[i] == "--all"@ {
        options_from(args, i + 1, all_flags(), loss)
    } else if args[i] == "--loss"@ {
        options_from(
            args,
            i + 2,
            flags,
            if i + 1 < args.len() {
                Some(args[i + 1])
            } else {
                loss
            },
        )
    } else {
        Err(args[i])
    }
}

/// `r` is what the arguments ask for: help before anything else, and all of
/// the benchmarks where none is named.
pub open spec fn is_request(args: Seq<Seq<char>>, r: BenchRequest) -> bool {
    if asks_help(args) {
        r is Help
    } else {
        match options_from(args, 0, no_flags(), None) {
            Ok((flags, loss)) => r matches BenchRequest::Run { flags: f, loss: l } && f
                == if flags == no_flags() {
                all_flags()
            } else {
                flags
            } && match l {
                Some(t) => loss == Some(t@),
                None => loss is None,
            },
            Err(option) => r matches BenchRequest::Unknown { option: o } && o@ == option,
        }
    }
}

/// Reads the arguments, without the program's name.
pub fn parse_bench_args(args: &[String]) -> (r: BenchRequest)
    requires
        args@.len() < usize::MAX,
    ensures
        is_request(args_view(args@), r),
{
    let ghost all = args_view(args@);
    let mut k: usize = 0;
    while k < args.len()
        invariant
            k <= args@.len(),
            all == args_view(args@),
            forall|i: int| 0 <= i < k ==> #[trigger] all[i] != "--help"@ && all[i] != "-h"@,
        decreases args.len() - k,
    {
        assert(all[k as int] == args@[k as int]@);
        if same_text(args[k].as_str(), "--help") || same_text(args[k].as_str(), "-h") {
            return BenchRequest::Help;
        }
        k += 1;
    }
    assert(!asks_help(all));
    let mut flags = BenchFlags { codec: false, fec: false, crypto: false, pipeline: false };
    let mut loss: Option<String> = None;
    let mut i: usize = 0;
    while i < args.len()
        invariant
            i <= args@.len() + 1,
            args@.len() < usize::MAX,
            all == args_view(args@),
            !asks_help(all),
            options_from(all, 0, no_flags(), None) == options_from(
                all,
                i as int,
                flags,
                crate::proto::opt_text(loss),
            ),
        decreases args.len() + 1 - i,
    {
        assert(all[i as int] == args@[i as int]@);
        let a = args[i].as_str();
        if same_text(a, "--codec") {
            flags.codec = true;
        } else if same_text(a, "--fec") {
            flags.fec = true;
        } else if same_text(a, "--crypto") {
            flags.crypto = true;
        } else if same_text(a, "--pipeline") {
            flags.pipeline = true;
        } else if same_text(a, "--all") {
            flags = BenchFlags { codec: true, fec: true, crypto: true, pipeline: true };
        } else if same_text(a, "--loss") {
            i += 1;
            if i < args.len() {
                assert(all[i as int] == args@[i as int]@);
                loss = Some(args[i].clone());
            }
        } else {
            return BenchRequest::Unknown { option: args[i].clone() };
        }
        i += 1;
    }
    if !flags.codec && !flags.fec && !flags.crypto && !flags.pipeline {
        flags = BenchFlags { codec: true, fec: true, crypto: true, pipeline: true };
    }
    BenchRequest::Run { flags, loss }
}

/// The lines above a table.
pub open spec fn header_text(title: Seq<char>) -> Seq<char> {
    "\n┌─────────────────────────────────────────────────────┐\n│ "@
        + left_aligned(title, 51)
        + " │\n├─────────────────────────────────────────────────────┤\n"@
}

pub fn print_header(title: &str) -> (r: String)
    ensures
        r@ == header_text(title@),
{
    let mut m = String::from_str(
        "\n┌─────────────────────────────────────────────────────┐\n│ ",
    );
    push_left_aligned(&mut m, title, 51);
    m.append(" │\n├─────────────────────────────────────────────────────┤\n");
    m
}

/// A line of a table.
pub open spec fn row_text(label: Seq<char>, value: Seq<char>) -> Seq<char> {
    "│  "@ + left_aligned(label, 28) + " "@ + right_aligned(value, 20) + "  │\n"@
}

pub fn print_row(label: &str, value: &str) -> (r: String)
    ensures
        r@ == row_text(label@, value@),
{
    let mut m = String::from_str("│  ");
    push_left_aligned(&mut m, label, 28);
    m.append(" ");
    push_right_aligned(&mut m, value, 20);
    m.append("  │\n");
    m
}

/// The line below a table.
pub fn print_footer() -> (r: String)
    ensures
        r@ == "└─────────────────────────────────────────────────────┘\n"@,
{
    String::from_str("└─────────────────────────────────────────────────────┘\n")
}

/// The argument at some place from `i` on is `a`.
pub open spec fn names(args: Seq<Seq<char>>, i: int, a: Seq<char>) -> bool {
    exists|j: int| i <= j < args.len() && #[trigger] args[j] == a
}

/// Every argument from `i` on is one of the benchmarks, or all of them.
pub open spec fn only_benchmarks(args: Seq<Seq<char>>, i: int) -> bool {
    forall|j: int|
        i <= j < args.len() ==> #[trigger] args[j] == "--codec"@ || args[j] == "--fec"@ || args[j]
            == "--crypto"@ || args[j] == "--pipeline"@ || args[j] == "--all"@
}

proof fn lemma_option_names()
    ensures
        "--codec"@ != "--fec"@,
        "--codec"@ != "--crypto"@,
        "--codec"@ != "--pipeline"@,
        "--codec"@ != "--all"@,
        "--fec"@ != "--crypto"@,
        "--fec"@ != "--pipeline"@,
        "--fec"@ != "--all"@,
        "--crypto"@ != "--pipeline"@,
        "--crypto"@ != "--all"@,
        "--pipeline"@ != "--all"@,
        "--loss"@ != "--codec"@,
        "--loss"@ != "--fec"@,
        "--loss"@ != "--crypto"@,
        "--loss"@ != "--pipeline"@,
        "--loss"@ != "--all"@,
{
    reveal_strlit("--codec");
    reveal_strlit("--fec");
    reveal_strlit("--crypto");
    reveal_strlit("--pipeline");
    reveal_strlit("--all");
    reveal_strlit("--loss");
    assert("--fec"@[2] == 'f' && "--all"@[2] == 'a');
    assert("--codec"@.len() == 7 && "--crypto"@.len() == 8 && "--pipeline"@.len() == 10);
}

/// A benchmark is run where it is named, whatever else is and in whatever
/// order, and where all are; and else only where it was asked for before.
pub proof fn lemma_named_benchmarks(
    args: Seq<Seq<char>>,
    i: int,
    flags: BenchFlags,
    loss: Option<Seq<char>>,
)
    requires
        0 <= i <= args.len(),
        only_benchmarks(args, i),
    ensures
        match options_from(args, i, flags, loss) {
            Ok((f, l)) => {
                let all = names(args, i, "--all"@);
                &&& f.codec == (flags.codec || all || names(args, i, "--codec"@))
                &&& f.fec == (flags.fec || all || names(args, i, "--fec"@))
                &&& f.crypto == (flags.crypto || all || names(args, i, "--crypto"@))
                &&& f.pipeline == (flags.pipeline || all || names(args, i, "--pipeline"@))
                &&& l == loss
            },
            Err(_) => false,
        },
    decreases args.len() - i,
{
    lemma_option_names();
    if i < args.len() {
        let a = args[i];
        let next = if a == "--codec"@ {
            BenchFlags { codec: true, ..flags }
        } else if a == "--fec"@ {
            BenchFlags { fec: true, ..flags }
        } else if a == "--crypto"@ {
            BenchFlags { crypto: true, ..flags }
        } else if a == "--pipeline"@ {
            BenchFlags { pipeline: true, ..flags }
        } else {
            all_flags()
        };
        lemma_named_benchmarks(args, i + 1, next, loss);
        lemma_names_from(args, i, "--codec"@);
        lemma_names_from(args, i, "--fec"@);
        lemma_names_from(args, i, "--crypto"@);
        lemma_names_from(args, i, "--pipeline"@);
        lemma_names_from(args, i, "--all"@);
    }
}

proof fn lemma_names_from(args: Seq<Seq<char>>, i: int, a: Seq<char>)
    requires
        0 <= i < args.len(),
    ensures
        names(args, i, a) <==> args[i] == a || names(args, i + 1, a),
{
}

/// The loss is what follows its option.
pub proof fn lemma_loss_follows(
    before: Seq<Seq<char>>,
    value: Seq<char>,
    flags: BenchFlags,
    loss: Option<Seq<char>>,
    i: int,
)
    requires
        only_benchmarks(before, i),
        0 <= i <= before.len(),
    ensures
        options_from(before.push("--loss"@).push(value), i, flags, loss) matches Ok((_, l)) && l
            == Some(value),
    decreases before.len() - i,
{
    lemma_option_names();
    let args = before.push("--loss"@).push(value);
    if i < before.len() {
        let a = args[i];
        assert(a == before[i]);
        let next = if a == "--codec"@ {
            BenchFlags { codec: true, ..flags }
        } else if a == "--fec"@ {
            BenchFlags { fec: true, ..flags }
        } else if a == "--crypto"@ {
            BenchFlags { crypto: true, ..flags }
        } else if a == "--pipeline"@ {
            BenchFlags { pipeline: true, ..flags }
        } else {
            all_flags()
        };
        lemma_loss_follows(before, value, next, loss, i + 1);
    } else {
        assert(args[i] == "--loss"@);
        assert(args[i + 1] == value);
        reveal_with_fuel(options_from, 2);
    }
}

} // verus!
