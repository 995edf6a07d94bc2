//! The rules of the command line, decided on plain values.
//!
//! The surrounding program owns the process arguments and the address parse;
//! what an argument vector *means* — how many arguments are accepted, which
//! first argument asks for help, where the worker count and the address
//! stand — is decided here. The caller reports whether the first argument
//! parses as an address, since only it can try that parse.

use vstd::prelude::*;

verus! {

/// `needle` stands somewhere in `hay`, byte for byte.
pub open spec fn has_subseq(hay: Seq<u8>, needle: Seq<u8>) -> bool {
    exists|i: int| 0 <= i && i + needle.len() <= hay.len()
        && #[trigger] hay.subrange(i, i + needle.len()) == needle
}

/// The bytes of `-h`.
pub open spec fn help_flag() -> Seq<u8> {
    seq![45u8, 104u8]
}

/// The bytes of `--help`.
pub open spec fn help_flag_long() -> Seq<u8> {
    seq![45u8, 45u8, 104u8, 101u8, 108u8, 112u8]
}

/// The bytes of `-j`.
pub open spec fn jobs_flag() -> Seq<u8> {
    seq![45u8, 106u8]
}

/// Whether `needle` occurs contiguously in `hay`.
pub fn contains_bytes(hay: &[u8], needle: &[u8]) -> (r: bool)
    ensures
        r == has_subseq(hay@, needle@),
{
    let nl = needle.len();
    let hl = hay.len();
    if nl == 0 {
        proof {
            assert(hay@.subrange(0, 0 + needle@.len() as int) =~= needle@);
            assert(has_subseq(hay@, needle@));
        }
        return true;
    }
    if nl > hl {
        proof {
            assert(!has_subseq(hay@, needle@)) by {
                if has_subseq(hay@, needle@) {
                    let i = choose|i: int| 0 <= i && i + needle@.len() <= hay@.len()
                        && #[trigger] hay@.subrange(i, i + needle@.len()) == needle@;
                    assert(false);
                }
            }
        }
        return false;
    }
    let mut start: usize = 0;
    while start <= hl - nl
        invariant
            nl == needle@.len(),
            hl == hay@.len(),
            1 <= nl <= hl,
            start <= hl - nl + 1,
            forall|i: int| 0 <= i < start ==>
                #[trigger] hay@.subrange(i, i + needle@.len()) != needle@,
        decreases hl - nl + 1 - start,
    {
        if matches_at(hay, needle, start) {
            proof {
                assert(hay@.subrange(start as int, start as int + needle@.len()) == needle@);
                assert(has_subseq(hay@, needle@));
            }
            return true;
        }
        start = start + 1;
    }
    proof {
        assert(!has_subseq(hay@, needle@)) by {
            if has_subseq(hay@, needle@) {
                let i = choose|i: int| 0 <= i && i + needle@.len() <= hay@.len()
                    && #[trigger] hay@.subrange(i, i + needle@.len()) == needle@;
                assert(i < start);
                assert(false);
            }
        }
    }
    false
}

/// Whether `needle` stands in `hay` exactly at position `at`.
fn matches_at(hay: &[u8], needle: &[u8], at: usize) -> (r: bool)
    requires
        at + needle@.len() <= hay@.len(),
    ensures
        r == (hay@.subrange(at as int, at as int + needle@.len()) == needle@),
{
    let hl = hay.len();
    let mut j: usize = 0;
    while j < needle.len()
        invariant
            at + needle@.len() <= hay@.len(),
            hl == hay@.len(),
            j <= needle@.len(),
            forall|k: int| 0 <= k < j ==> hay@[at + k] == needle@[k],
        decreases needle@.len() - j,
    {
        if hay[at + j] != needle[j] {
            proof {
                assert(hay@.subrange(at as int, at as int + needle@.len())[j as int]
                    == hay@[at + j]);
            }
            return false;
        }
        j = j + 1;
    }
    proof {
        assert(hay@.subrange(at as int, at as int + needle@.len()) =~= needle@);
    }
    true
}

/// What one command line asks for.
#[derive(Clone, Copy, PartialEq, Eq, Structural, Debug)]
pub enum CliDecision {
    /// Fewer than two arguments (counting the program name): nothing to scan.
    NotEnough,
    /// More than four arguments.
    TooMany,
    /// The first argument is the address; scan it with the default worker count.
    AddressOnly,
    /// The first argument asks for the help text.
    Help,
    /// `-j`: the second argument is the worker count, the third the address.
    ThreadsAndAddress,
    /// Anything else.
    InvalidSyntax,
}

/// The command line's meaning: argument-count bounds first, then an address
/// alone, then the help flags, then `-j` with its worker count and address —
/// which needs exactly four arguments, so that both stand where expected.
pub open spec fn spec_classify(arg_count: int, first_is_address: bool, first: Seq<u8>) -> CliDecision {
    if arg_count < 2 {
        CliDecision::NotEnough
    } else if arg_count > 4 {
        CliDecision::TooMany
    } else if first_is_address {
        CliDecision::AddressOnly
    } else if has_subseq(first, help_flag()) || has_subseq(first, help_flag_long()) {
        CliDecision::Help
    } else if has_subseq(first, jobs_flag()) && arg_count == 4 {
        CliDecision::ThreadsAndAddress
    } else {
        CliDecision::InvalidSyntax
    }
}

/// Decides what the command line asks for. `arg_count` is the whole argument
/// vector's length, `first` the argument after the program name, and
/// `first_is_address` whether the caller could parse it as an IP address.
pub fn classify_arguments(arg_count: usize, first_is_address: bool, first: &[u8]) -> (d: CliDecision)
    ensures
        d == spec_classify(arg_count as int, first_is_address, first@),
{
    if arg_count < 2 {
        return CliDecision::NotEnough;
    }
    if arg_count > 4 {
        return CliDecision::TooMany;
    }
    if first_is_address {
        return CliDecision::AddressOnly;
    }
    let mut help_short: Vec<u8> = Vec::new();
    help_short.push(45);
    help_short.push(104);
    proof {
        assert(help_short@ =~= help_flag());
    }
    let mut help_long: Vec<u8> = Vec::new();
    help_long.push(45);
    help_long.push(45);
    help_long.push(104);
    help_long.push(101);
    help_long.push(108);
    help_long.push(112);
    proof {
        assert(help_long@ =~= help_flag_long());
    }
    if contains_bytes(first, help_short.as_slice()) || contains_bytes(first, help_long.as_slice()) {
        return CliDecision::Help;
    }
    let mut jobs: Vec<u8> = Vec::new();
    jobs.push(45);
    jobs.push(106);
    proof {
        assert(jobs@ =~= jobs_flag());
    }
    if contains_bytes(first, jobs.as_slice()) && arg_count == 4 {
        return CliDecision::ThreadsAndAddress;
    }
    CliDecision::InvalidSyntax
}

} // verus!
