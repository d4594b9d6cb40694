//! Programs and batch files.
use vstd::prelude::*;


use crate::command::output::contents;
use crate::text::{push_bytes, push_text, sub_bytes, text};

verus! {

/// A name with a dot in it.
pub open spec fn dotted(name: Seq<u8>) -> bool {
    exists|i: int| 0 <= i < name.len() && #[trigger] name[i] == 0x2E
}

pub fn has_extension(name: &[u8]) -> (r: bool)
    ensures
        r == dotted(name@),
{
    let mut i: usize = 0;
    while i < name.len()
        invariant
            i <= name@.len(),
            forall|k: int| 0 <= k < i ==> #[trigger] name@[k] != 0x2E,
        decreases name@.len() - i,
    {
        if name[i] == 0x2E {
            assert(name@[i as int] == 0x2E);
            return true;
        }
        i += 1;
    }
    false
}

/// A byte with the case of letters taken away.
pub open spec fn folded(b: u8) -> u8 {
    if 0x41 <= b <= 0x5A { (b + 0x20) as u8 } else { b }
}

fn fold(b: u8) -> (r: u8)
    ensures
        r == folded(b),
{
    if b >= 0x41 && b <= 0x5A { b + 0x20 } else { b }
}

/// The text ends in the suffix, in any case.
pub open spec fn ends_with(s: Seq<u8>, suffix: Seq<u8>) -> bool {
    s.len() >= suffix.len() && forall|i: int|
        0 <= i < suffix.len() ==> folded(#[trigger] s[s.len() - suffix.len() + i]) == folded(suffix[i])
}

pub fn ends_with_ignore_case(s: &[u8], suffix: &[u8]) -> (r: bool)
    ensures
        r == ends_with(s@, suffix@),
{
    if s.len() < suffix.len() {
        return false;
    }
    let n: usize = s.len();
    let start: usize = n - suffix.len();
    let mut i: usize = 0;
    while i < suffix.len()
        invariant
            i <= suffix@.len(),
            n == s@.len(),
            start == n - suffix@.len(),
            forall|k: int| 0 <= k < i ==> folded(#[trigger] s@[start + k]) == folded(suffix@[k]),
        decreases suffix@.len() - i,
    {
        if fold(s[start + i]) != fold(suffix[i]) {
            assert(folded(s@[s@.len() - suffix@.len() + i]) != folded(suffix@[i as int]));
            return false;
        }
        i += 1;
    }
    true
}

/// One thing to try for an unknown command.
pub enum Attempt {
    /// Run the file of that name as a program.
    Program(Vec<u8>),
    /// Run the lines of the file of that name.
    Batch(Vec<u8>),
}

/// The same, over sequences.
pub enum AttemptModel {
    Program(Seq<u8>),
    Batch(Seq<u8>),
}

impl View for Attempt {
    type V = AttemptModel;

    open spec fn view(&self) -> AttemptModel {
        match self {
            Attempt::Program(name) => AttemptModel::Program(name@),
            Attempt::Batch(name) => AttemptModel::Batch(name@),
        }
    }
}

pub open spec fn attempts_model(v: Seq<Attempt>) -> Seq<AttemptModel> {
    Seq::new(v.len(), |i: int| v[i]@)
}

/// What is tried for a name, in order. `path` is the full path of the name.
pub open spec fn attempts(name: Seq<u8>, path: Seq<u8>) -> Seq<AttemptModel> {
    if dotted(name) {
        if ends_with(path, text(".BAT")) {
            seq![AttemptModel::Batch(name)]
        } else {
            seq![AttemptModel::Program(name)]
        }
    } else {
        seq![
            AttemptModel::Program(name),
            AttemptModel::Program(name + text(".ELF")),
            AttemptModel::Batch(name + text(".BAT")),
        ]
    }
}

fn with_suffix(name: &[u8], suffix: &str) -> (r: Vec<u8>)
    ensures
        r@ == name@ + text(suffix),
{
    let mut out: Vec<u8> = sub_bytes(name, 0, name.len());
    assert(out@ =~= name@);
    push_text(&mut out, suffix);
    out
}

/// What to try for a name that is no command of the interpreter: the first that is
/// there is run. A name with an extension is tried as it is; another is tried as it is, as
/// a program and as a batch file.
pub fn try_external(name: &[u8], path: &[u8]) -> (r: Vec<Attempt>)
    ensures
        attempts_model(r@) == attempts(name@, path@),
{
    let plain: Vec<u8> = sub_bytes(name, 0, name.len());
    assert(plain@ =~= name@);
    let mut r: Vec<Attempt> = Vec::new();
    if has_extension(name) {
        if ends_with_ignore_case(path, ".BAT".as_bytes()) {
            r.push(Attempt::Batch(plain));
        } else {
            r.push(Attempt::Program(plain));
        }
    } else {
        r.push(Attempt::Program(plain));
        r.push(Attempt::Program(with_suffix(name, ".ELF")));
        r.push(Attempt::Batch(with_suffix(name, ".BAT")));
    }
    assert(attempts_model(r@) =~= attempts(name@, path@));
    r
}

/// One argument: its length in 16 bits, low byte first, and its bytes.
pub open spec fn arg_record(arg: Seq<u8>) -> Seq<u8> {
    seq![(arg.len() % 256) as u8, (arg.len() / 256 % 256) as u8] + arg
}

/// Arguments one after another.
pub open spec fn arg_records(args: Seq<Seq<u8>>) -> Seq<u8>
    decreases args.len(),
{
    if args.len() == 0 {
        Seq::empty()
    } else {
        arg_records(args.drop_last()) + arg_record(args.last())
    }
}

fn push_arg(out: &mut Vec<u8>, arg: &[u8])
    ensures
        final(out)@ == old(out)@ + arg_record(arg@),
{
    let n: usize = arg.len();
    out.push((n % 256) as u8);
    out.push((n / 256 % 256) as u8);
    push_bytes(out, arg);
    assert(out@ =~= old(out)@ + arg_record(arg@));
}

/// The arguments of a new program: its path, then the words of the command line.
pub fn arg_structure(path: &[u8], args: &Vec<Vec<u8>>) -> (r: Vec<u8>)
    ensures
        r@ == arg_record(path@) + arg_records(contents(args@)),
{
    let mut out: Vec<u8> = Vec::new();
    push_arg(&mut out, path);
    assert(out@ =~= arg_record(path@));
    let ghost all = contents(args@);
    let mut i: usize = 0;
    assert(all.subrange(0, 0) =~= Seq::empty());
    assert(arg_records(all.subrange(0, 0)) =~= Seq::empty());
    assert(out@ =~= arg_record(path@) + arg_records(all.subrange(0, 0)));
    while i < args.len()
        invariant
            i <= args@.len(),
            all == contents(args@),
            out@ == arg_record(path@) + arg_records(all.subrange(0, i as int)),
        decreases args@.len() - i,
    {
        assert(all.subrange(0, i + 1).drop_last() =~= all.subrange(0, i as int));
        assert(all.subrange(0, i + 1).last() == args@[i as int]@);
        push_arg(&mut out, args[i].as_slice());
        i += 1;
        assert(out@ =~= arg_record(path@) + arg_records(all.subrange(0, i as int)));
    }
    assert(all.subrange(0, args@.len() as int) =~= all);
    out
}

/// The arguments in a run of records.
pub open spec fn read_args(s: Seq<u8>) -> Seq<Seq<u8>>
    decreases s.len(),
{
    if s.len() < 2 {
        Seq::empty()
    } else {
        let n = s[0] + s[1] * 256;
        if s.len() < 2 + n {
            Seq::empty()
        } else {
            seq![s.subrange(2, 2 + n)] + read_args(s.skip(2 + n))
        }
    }
}

proof fn lemma_records_front(args: Seq<Seq<u8>>)
    requires
        args.len() > 0,
    ensures
        arg_records(args) == arg_record(args[0]) + arg_records(args.skip(1)),
    decreases args.len(),
{
    if args.len() == 1 {
        assert(args.drop_last() =~= Seq::empty());
        assert(args.skip(1) =~= Seq::empty());
        assert(arg_records(args.drop_last()) =~= Seq::empty());
        assert(arg_records(args.skip(1)) =~= Seq::empty());
        assert(arg_records(args) =~= arg_record(args[0]));
        assert(arg_record(args[0]) + arg_records(args.skip(1)) =~= arg_record(args[0]));
    } else {
        lemma_records_front(args.drop_last());
        assert(args.drop_last().skip(1) =~= args.skip(1).drop_last());
        assert(args.drop_last()[0] == args[0]);
        assert(args.skip(1).last() == args.last());
        assert(arg_records(args) =~= arg_record(args[0]) + arg_records(args.skip(1)));
    }
}

/// A program reads back the arguments that it was given, where none has over 65535
/// bytes.
pub proof fn arguments_round_trip(args: Seq<Seq<u8>>)
    requires
        forall|i: int| 0 <= i < args.len() ==> (#[trigger] args[i]).len() <= 0xffff,
    ensures
        read_args(arg_records(args)) == args,
    decreases args.len(),
{
    if args.len() == 0 {
        assert(read_args(arg_records(args)) =~= args);
    } else {
        lemma_records_front(args);
        let s = arg_records(args);
        let n = args[0].len() as int;
        assert(s[0] + s[1] * 256 == n);
        assert(s.subrange(2, 2 + n) =~= args[0]);
        assert(s.skip(2 + n) =~= arg_records(args.skip(1)));
        assert forall|i: int| 0 <= i < args.skip(1).len() implies (#[trigger] args.skip(1)[i]).len()
            <= 0xffff by {
            assert(args.skip(1)[i] == args[i + 1]);
        }
        arguments_round_trip(args.skip(1));
        assert(seq![args[0]] + args.skip(1) =~= args);
    }
}

} // verus!
