//! The quick actions run from a file manager or a command line: where they
//! write and what they tell the user. Running the archive operations,
//! revealing the result and showing messages happen at the edge of the
//! program.

use vstd::prelude::*;

use crate::error::{error_message, AppError};
use crate::paths::{compress_dest, compress_dest_spec, extract_dest, extract_dest_spec};
use crate::text::{chars_of, eq_str, push_chars, push_str, starts_with, starts_with_str, string_from_chars, strs};

verus! {

/// What a quick action does.
pub enum CliPlan {
    /// Nothing to work on: show this message.
    Notify(String),
    /// Compress all the inputs into a zip archive at `dest`.
    Compress { dest: String },
    /// Extract each archive into its destination, in order.
    Extract { jobs: Vec<(String, String)> },
}

/// The message shown when no file was given.
pub open spec fn nothing_given() -> Seq<char> {
    "未收到任何文件"@
}

/// The quick "compress" action: all the inputs go into one zip archive
/// beside them (see `compress_dest`).
pub fn cli_compress(paths: &Vec<String>) -> (p: CliPlan)
    ensures
        paths@.len() == 0 ==> (p matches CliPlan::Notify(m) && m@ == nothing_given()),
        paths@.len() > 0 ==> (p matches CliPlan::Compress { dest } && dest@ == compress_dest_spec(
            strs(paths@),
        )),
{
    if paths.len() == 0 {
        return CliPlan::Notify("未收到任何文件".to_owned());
    }
    CliPlan::Compress { dest: compress_dest(paths) }
}

/// The quick "extract" action: each archive goes into a directory beside
/// it named after it (see `extract_dest`).
pub fn cli_extract(paths: &Vec<String>) -> (p: CliPlan)
    ensures
        paths@.len() == 0 ==> (p matches CliPlan::Notify(m) && m@ == nothing_given()),
        paths@.len() > 0 ==> (p matches CliPlan::Extract { jobs } && jobs@.len() == paths@.len()
            && forall|i: int|
            0 <= i < jobs@.len() ==> (#[trigger] jobs@[i]).0@ == paths@[i]@ && jobs@[i].1@
                == extract_dest_spec(paths@[i]@)),
{
    if paths.len() == 0 {
        return CliPlan::Notify("未收到任何文件".to_owned());
    }
    let mut jobs: Vec<(String, String)> = Vec::new();
    let mut i: usize = 0;
    while i < paths.len()
        invariant
            i <= paths@.len(),
            jobs@.len() == i,
            forall|j: int|
                0 <= j < i ==> (#[trigger] jobs@[j]).0@ == paths@[j]@ && jobs@[j].1@
                    == extract_dest_spec(paths@[j]@),
        decreases paths.len() - i,
    {
        let a = paths[i].as_str().to_owned();
        let d = extract_dest(paths[i].as_str());
        jobs.push((a, d));
        i = i + 1;
    }
    CliPlan::Extract { jobs }
}

/// The message shown when the quick compression failed.
pub fn compress_failed(e: &AppError) -> (m: String)
    ensures
        m@ == "压缩失败："@ + error_message(*e),
{
    let mut v: Vec<char> = Vec::new();
    push_str(&mut v, "压缩失败：");
    let t = e.message();
    push_str(&mut v, t.as_str());
    string_from_chars(v.as_slice())
}

/// The message shown when extracting `archive` failed.
pub fn extract_failed(archive: &str, e: &AppError) -> (m: String)
    ensures
        m@ == "解压失败（"@ + archive@ + "）："@ + error_message(*e),
{
    let mut v: Vec<char> = Vec::new();
    push_str(&mut v, "解压失败（");
    push_str(&mut v, archive);
    push_str(&mut v, "）：");
    let t = e.message();
    push_str(&mut v, t.as_str());
    string_from_chars(v.as_slice())
}

/// Archives waiting to be opened by the window (handed over by the system
/// before or while it runs), oldest first.
pub struct PendingOpen {
    paths: Vec<String>,
}

impl View for PendingOpen {
    type V = Seq<Seq<char>>;

    closed spec fn view(&self) -> Seq<Seq<char>> {
        strs(self.paths@)
    }
}

impl PendingOpen {
    /// No archive waiting.
    pub fn new() -> (q: PendingOpen)
        ensures
            q@ == Seq::<Seq<char>>::empty(),
    {
        PendingOpen { paths: Vec::new() }
    }

    /// Queues `paths`, after those already waiting.
    pub fn extend(&mut self, paths: Vec<String>)
        ensures
            final(self)@ == old(self)@ + strs(paths@),
    {
        let ghost start = self@;
        let mut i: usize = 0;
        while i < paths.len()
            invariant
                i <= paths@.len(),
                self@ == start + strs(paths@).take(i as int),
            decreases paths.len() - i,
        {
            let ghost old_paths = self.paths@;
            let s = paths[i].as_str().to_owned();
            self.paths.push(s);
            assert(strs(self.paths@) =~= strs(old_paths).push(paths@[i as int]@));
            assert(strs(paths@).take(i + 1) =~= strs(paths@).take(i as int).push(paths@[i as int]@));
            i = i + 1;
            assert(self@ =~= start + strs(paths@).take(i as int));
        }
        assert(strs(paths@).take(i as int) =~= strs(paths@));
    }

    /// Hands over every waiting archive, leaving none.
    pub fn take(&mut self) -> (r: Vec<String>)
        ensures
            strs(r@) == old(self)@,
            final(self)@ == Seq::<Seq<char>>::empty(),
    {
        let mut out: Vec<String> = Vec::new();
        std::mem::swap(&mut out, &mut self.paths);
        assert(strs(self.paths@) =~= Seq::<Seq<char>>::empty());
        out
    }
}

/// The command line of the quick actions: `compress` or `extract`, then at
/// least one path.
pub enum CliMode {
    Compress(Vec<String>),
    Extract(Vec<String>),
    /// Too few arguments: show the usage.
    Usage,
    /// Another mode: refuse it, naming it.
    Unknown(String),
}

/// Reads the quick actions' command line (`args[0]` is the program).
pub fn cli_mode(args: &Vec<String>) -> (m: CliMode)
    ensures
        args@.len() < 3 ==> m is Usage,
        args@.len() >= 3 && args@[1]@ == "compress"@ ==> (m matches CliMode::Compress(ps) && strs(ps@)
            == strs(args@).skip(2)),
        args@.len() >= 3 && args@[1]@ == "extract"@ ==> (m matches CliMode::Extract(ps) && strs(ps@)
            == strs(args@).skip(2)),
        args@.len() >= 3 && args@[1]@ != "compress"@ && args@[1]@ != "extract"@ ==> (m matches CliMode::Unknown(
            x,
        ) && x@ == args@[1]@),
{
    if args.len() < 3 {
        return CliMode::Usage;
    }
    let mut rest: Vec<String> = Vec::new();
    let mut i: usize = 2;
    while i < args.len()
        invariant
            2 <= i <= args@.len(),
            strs(rest@) == strs(args@).subrange(2, i as int),
        decreases args.len() - i,
    {
        let ghost before = rest@;
        rest.push(args[i].as_str().to_owned());
        assert(strs(rest@) =~= strs(before).push(args@[i as int]@));
        i = i + 1;
        assert(strs(rest@) =~= strs(args@).subrange(2, i as int));
    }
    assert(strs(args@).subrange(2, i as int) =~= strs(args@).skip(2));
    let mc = chars_of(args[1].as_str());
    proof {
        reveal_strlit("compress");
        reveal_strlit("extract");
        assert("extract"@.len() != "compress"@.len());
    }
    if eq_str(mc.as_slice(), "compress") {
        CliMode::Compress(rest)
    } else if eq_str(mc.as_slice(), "extract") {
        CliMode::Extract(rest)
    } else {
        CliMode::Unknown(args[1].as_str().to_owned())
    }
}

/// The Quick Look helper's command line from position `i` on, given what
/// was read before: `--password <pw>` or `-p <pw>` (a flag without a value
/// is dropped), `--password=<pw>`, and the first other argument as the
/// archive. The last password given wins.
pub open spec fn ql_args_from(
    args: Seq<Seq<char>>,
    i: int,
    pw: Option<Seq<char>>,
    archive: Option<Seq<char>>,
) -> (Option<Seq<char>>, Option<Seq<char>>)
    decreases args.len() - i,
{
    if i < 0 || i >= args.len() {
        (pw, archive)
    } else {
        let a = args[i];
        if a == "--password"@ || a == "-p"@ {
            if i + 1 < args.len() {
                ql_args_from(args, i + 2, Some(args[i + 1]), archive)
            } else {
                ql_args_from(args, i + 1, pw, archive)
            }
        } else if starts_with(a, "--password="@) {
            ql_args_from(args, i + 1, Some(a.skip(11)), archive)
        } else if archive is None {
            ql_args_from(args, i + 1, pw, Some(a))
        } else {
            ql_args_from(args, i + 1, pw, archive)
        }
    }
}

/// Reads the Quick Look helper's command line (`args[0]` is the program):
/// the password, if any, and the archive, if any.
pub fn ql_args(args: &Vec<String>) -> (r: (Option<String>, Option<String>))
    ensures
        ({
            let want = ql_args_from(strs(args@), 1, None, None);
            &&& match r.0 {
                Some(p) => want.0 == Some(p@),
                None => want.0 is None,
            }
            &&& match r.1 {
                Some(a) => want.1 == Some(a@),
                None => want.1 is None,
            }
        }),
{
    let ghost av = strs(args@);
    let mut password: Option<String> = None;
    let mut archive: Option<String> = None;
    let mut i: usize = 1;
    while i < args.len()
        invariant
            1 <= i <= args@.len() + 1,
            av == strs(args@),
            ql_args_from(av, 1, None, None) == ql_args_from(
                av,
                i as int,
                match password {
                    Some(p) => Some(p@),
                    None => None,
                },
                match archive {
                    Some(x) => Some(x@),
                    None => None,
                },
            ),
        decreases args.len() + 1 - i,
    {
        let a = args[i].as_str();
        let ac = chars_of(a);
        proof {
            reveal_strlit("--password=");
            assert(av[i as int] == a@);
        }
        if eq_str(ac.as_slice(), "--password") || eq_str(ac.as_slice(), "-p") {
            if i + 1 < args.len() {
                password = Some(args[i + 1].as_str().to_owned());
                proof {
                    assert(av[i + 1] == args@[i + 1]@);
                }
                i = i + 2;
                continue;
            }
        } else if starts_with_str(ac.as_slice(), "--password=") {
            let mut rest: Vec<char> = Vec::new();
            let mut k: usize = 11;
            while k < ac.len()
                invariant
                    11 <= k <= ac@.len(),
                    rest@ == ac@.subrange(11, k as int),
                decreases ac.len() - k,
            {
                rest.push(ac[k]);
                k = k + 1;
                assert(rest@ =~= ac@.subrange(11, k as int));
            }
            assert(ac@.subrange(11, k as int) =~= a@.skip(11));
            password = Some(string_from_chars(rest.as_slice()));
            i = i + 1;
            continue;
        } else if archive.is_none() {
            archive = Some(a.to_owned());
        }
        i = i + 1;
    }
    (password, archive)
}

} // verus!
