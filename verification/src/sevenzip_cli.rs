//! The bundled `7z` command-line engine, used for the read-only formats the
//! built-in engines do not cover (iso, cab, dmg, deb, rpm, ...): the
//! command lines it is given and how its output is read. Running the
//! program happens at the edge of the program.

use vstd::prelude::*;

use crate::error::{
    archive_err, is_archive_err, is_other_err, is_unsupported_err, unsupported_err, AppError, AppResult,
};
use crate::model::{EntryInfo, ExtractResult, PreviewData, TestResult};
use crate::paths::{file_name, file_name_exec};
use crate::preview::{build_preview, cli_is_binary, mime_of_spec, preview_of, utf8_lossy, utf8_lossy_string};
use crate::rar::{has_pw, opt_view};
use crate::text::{
    chars_of, concat_string, strs, contains_seq, contains_str, eq_str, is_ws, last_index_of, lemma_last_index_bounds,
    lemma_last_index_concat, split_on, split_on_exec, string_from_chars, trim_chars, trim_end_ws, trim_start_ws,
    trim_ws,
};

verus! {

/// The value of a run of decimal digits.
pub open spec fn digits_value(d: Seq<char>) -> int
    decreases d.len(),
{
    if d.len() == 0 {
        0
    } else {
        digits_value(d.drop_last()) * 10 + (d.last() as int - '0' as int)
    }
}

/// `u64::from_str`: an optional `+`, then one or more ASCII digits, with a
/// value that fits.
pub open spec fn parse_u64_spec(s: Seq<char>) -> Option<u64> {
    let d = if s.len() > 0 && s[0] == '+' { s.drop_first() } else { s };
    if d.len() == 0 || !crate::model::all_digits(d) || digits_value(d) > u64::MAX {
        None
    } else {
        Some(digits_value(d) as u64)
    }
}

proof fn lemma_digits_value_nonneg(d: Seq<char>)
    requires
        crate::model::all_digits(d),
    ensures
        digits_value(d) >= 0,
    decreases d.len(),
{
    if d.len() > 0 {
        assert(crate::model::all_digits(d.drop_last())) by {
            assert forall|i: int| 0 <= i < d.drop_last().len() implies '0' <= #[trigger] d.drop_last()[i]
                && d.drop_last()[i] <= '9' by {
                assert(d.drop_last()[i] == d[i]);
            }
        }
        lemma_digits_value_nonneg(d.drop_last());
    }
}

proof fn lemma_digits_value_mono(d: Seq<char>, k: int)
    requires
        crate::model::all_digits(d),
        0 <= k <= d.len(),
    ensures
        digits_value(d.take(k)) <= digits_value(d),
    decreases d.len() - k,
{
    if k < d.len() {
        let t = d.take(k + 1);
        assert(t.drop_last() =~= d.take(k));
        assert(crate::model::all_digits(d.take(k))) by {
            assert forall|i: int| 0 <= i < d.take(k).len() implies '0' <= #[trigger] d.take(k)[i]
                && d.take(k)[i] <= '9' by {
                assert(d.take(k)[i] == d[i]);
            }
        }
        lemma_digits_value_nonneg(d.take(k));
        assert(d.take(k + 1).last() == d[k]);
        lemma_digits_value_mono(d, k + 1);
    } else {
        assert(d.take(k) =~= d);
    }
}

/// Parses a decimal `u64` as `u64::from_str` does.
pub fn parse_u64(s: &[char]) -> (r: Option<u64>)
    ensures
        r == parse_u64_spec(s@),
{
    let start: usize = if s.len() > 0 && s[0] == '+' { 1 } else { 0 };
    let ghost d = if s@.len() > 0 && s@[0] == '+' { s@.drop_first() } else { s@ };
    assert(d =~= s@.skip(start as int));
    if start == s.len() {
        return None;
    }
    let mut v: u64 = 0;
    let mut i: usize = start;
    while i < s.len()
        invariant
            start <= i <= s@.len(),
            start < s@.len(),
            d == s@.skip(start as int),
            d == (if s@.len() > 0 && s@[0] == '+' { s@.drop_first() } else { s@ }),
            crate::model::all_digits(d.take(i - start)),
            v == digits_value(d.take(i - start)),
        decreases s.len() - i,
    {
        let c = s[i];
        if !('0' <= c && c <= '9') {
            proof {
                assert(d[i - start] == c);
                assert(!crate::model::all_digits(d));
            }
            return None;
        }
        let dig: u64 = (c as u32 - 48) as u64;
        proof {
            let t = d.take(i + 1 - start);
            assert(dig == c as int - '0' as int);
            assert(t.drop_last() =~= d.take(i - start));
            assert(t.last() == c);
            assert(crate::model::all_digits(t)) by {
                assert forall|k: int| 0 <= k < t.len() implies '0' <= #[trigger] t[k] && t[k] <= '9' by {
                    if k < t.len() - 1 {
                        assert(t[k] == d.take(i - start)[k]);
                    }
                }
            }
        }
        if v > (u64::MAX - dig) / 10 {
            proof {
                assert(digits_value(d.take(i + 1 - start)) > u64::MAX) by (nonlinear_arith)
                    requires
                        v > (u64::MAX - dig) / 10,
                        digits_value(d.take(i + 1 - start)) == v * 10 + dig,
                        dig <= 9,
                ;
                if crate::model::all_digits(d) {
                    lemma_digits_value_mono(d, i + 1 - start);
                    assert(digits_value(d) > u64::MAX);
                }
                assert(d.len() > 0);
            }
            return None;
        }
        v = v * 10 + dig;
        i = i + 1;
    }
    assert(d.take(i - start) =~= d);
    Some(v)
}

/// The fields of one `7z l -slt` block that are read: Path, Attributes,
/// Size, Packed Size and Method (a later line overrides an earlier one).
pub type CliBlock = (
    Option<Seq<char>>,
    Option<Seq<char>>,
    Option<Seq<char>>,
    Option<Seq<char>>,
    Option<Seq<char>>,
);

pub open spec fn empty_block() -> CliBlock {
    (None, None, None, None, None)
}

/// Records `k = v` in a block.
pub open spec fn set_field(b: CliBlock, k: Seq<char>, v: Seq<char>) -> CliBlock {
    if k == "Path"@ {
        (Some(v), b.1, b.2, b.3, b.4)
    } else if k == "Attributes"@ {
        (b.0, Some(v), b.2, b.3, b.4)
    } else if k == "Size"@ {
        (b.0, b.1, Some(v), b.3, b.4)
    } else if k == "Packed Size"@ {
        (b.0, b.1, b.2, Some(v), b.4)
    } else if k == "Method"@ {
        (b.0, b.1, b.2, b.3, Some(v))
    } else {
        b
    }
}

/// A listed entry: name, size, packed size, directory flag, method.
pub type CliEntry = (Seq<char>, u64, Option<u64>, bool, Option<Seq<char>>);

/// The entry a finished block gives: none without a (non-empty) Path; the
/// size is 0 when missing or unreadable; a directory has `D` among its
/// attributes.
pub open spec fn flush_block(b: CliBlock) -> Seq<CliEntry> {
    match b.0 {
        Some(p) => if p.len() > 0 {
            seq![
                (
                    p,
                    match b.2 {
                        Some(s) => match parse_u64_spec(s) {
                            Some(n) => n,
                            None => 0u64,
                        },
                        None => 0u64,
                    },
                    match b.3 {
                        Some(s) => parse_u64_spec(s),
                        None => None,
                    },
                    match b.1 {
                        Some(a) => a.contains('D'),
                        None => false,
                    },
                    b.4,
                ),
            ]
        } else {
            Seq::<CliEntry>::empty()
        },
        None => Seq::<CliEntry>::empty(),
    }
}

/// The first index of `c` in `s`, or -1.
pub open spec fn first_index_of(s: Seq<char>, c: char) -> int
    decreases s.len(),
{
    if s.len() == 0 {
        -1
    } else if s[0] == c {
        0
    } else if first_index_of(s.drop_first(), c) < 0 {
        -1
    } else {
        1 + first_index_of(s.drop_first(), c)
    }
}

/// One line of the listing: a blank line ends the block; `key = value`
/// (split at the first `=`, both sides trimmed) records a field; anything
/// else is ignored.
pub open spec fn line_step(st: (CliBlock, Seq<CliEntry>), line: Seq<char>) -> (
    CliBlock,
    Seq<CliEntry>,
) {
    let l = trim_ws(line);
    if l.len() == 0 {
        (empty_block(), st.1 + flush_block(st.0))
    } else {
        let i = first_index_of(l, '=');
        if i < 0 {
            st
        } else {
            (set_field(st.0, trim_ws(l.take(i)), trim_ws(l.skip(i + 1))), st.1)
        }
    }
}

/// The state after the first `n` lines.
pub open spec fn lines_state(lines: Seq<Seq<char>>, n: int) -> (CliBlock, Seq<CliEntry>)
    decreases n,
{
    if n <= 0 {
        (empty_block(), Seq::<CliEntry>::empty())
    } else {
        line_step(lines_state(lines, n - 1), lines[n - 1])
    }
}

/// The entries of a `7z l -slt` listing, one per block with a Path. The
/// text is split at line feeds; since every line is trimmed, this reads the
/// same lines as `str::lines`.
pub open spec fn parse_list_spec(s: Seq<char>) -> Seq<CliEntry> {
    let lines = split_on(s, '\n');
    let st = lines_state(lines, lines.len() as int);
    st.1 + flush_block(st.0)
}

/// `e` shows the listed entry `c` (the listing gives no modification time).
pub open spec fn cli_entry_is(e: EntryInfo, c: CliEntry) -> bool {
    &&& e.name@ == c.0
    &&& e.size == c.1
    &&& e.compressed_size == c.2
    &&& e.is_dir == c.3
    &&& e.modified is None
    &&& match c.4 {
        None => e.method is None,
        Some(m) => e.method matches Some(x) && x@ == m,
    }
}

/// The entries `es` show the listed entries `cs`, in order.
pub open spec fn cli_entries_are(es: Seq<EntryInfo>, cs: Seq<CliEntry>) -> bool {
    es.len() == cs.len() && forall|i: int| 0 <= i < es.len() ==> cli_entry_is(#[trigger] es[i], cs[i])
}

struct Block {
    path: Option<Vec<char>>,
    attrs: Option<Vec<char>>,
    size: Option<Vec<char>>,
    packed: Option<Vec<char>>,
    method: Option<Vec<char>>,
}

spec fn opt_chars(o: Option<Vec<char>>) -> Option<Seq<char>> {
    match o {
        Some(v) => Some(v@),
        None => None,
    }
}

spec fn block_view(b: Block) -> CliBlock {
    (opt_chars(b.path), opt_chars(b.attrs), opt_chars(b.size), opt_chars(b.packed), opt_chars(b.method))
}

fn new_block() -> (b: Block)
    ensures
        block_view(b) == empty_block(),
{
    Block { path: None, attrs: None, size: None, packed: None, method: None }
}

fn contains_char(s: &[char], c: char) -> (b: bool)
    ensures
        b == s@.contains(c),
{
    let mut i: usize = 0;
    while i < s.len()
        invariant
            i <= s@.len(),
            forall|j: int| 0 <= j < i ==> s@[j] != c,
        decreases s.len() - i,
    {
        if s[i] == c {
            return true;
        }
        i = i + 1;
    }
    false
}

fn opt_string(o: &Option<Vec<char>>) -> (r: Option<String>)
    ensures
        match r {
            Some(s) => opt_chars(*o) == Some(s@),
            None => opt_chars(*o) is None,
        },
{
    match o {
        Some(v) => Some(string_from_chars(v.as_slice())),
        None => None,
    }
}

fn flush(b: &Block, out: &mut Vec<EntryInfo>)
    ensures
        final(out)@.len() == old(out)@.len() + flush_block(block_view(*b)).len(),
        final(out)@.take(old(out)@.len() as int) == old(out)@,
        forall|i: int|
            0 <= i < flush_block(block_view(*b)).len() ==> cli_entry_is(
                #[trigger] final(out)@[old(out)@.len() + i],
                flush_block(block_view(*b))[i],
            ),
{
    match &b.path {
        Some(p) => {
            if p.len() == 0 {
                assert(out@.take(out@.len() as int) =~= out@);
                return;
            }
            let size = match &b.size {
                Some(s) => match parse_u64(s.as_slice()) {
                    Some(n) => n,
                    None => 0,
                },
                None => 0,
            };
            let packed = match &b.packed {
                Some(s) => parse_u64(s.as_slice()),
                None => None,
            };
            let is_dir = match &b.attrs {
                Some(a) => contains_char(a.as_slice(), 'D'),
                None => false,
            };
            let method = opt_string(&b.method);
            let ghost before = out@;
            out.push(
                EntryInfo {
                    name: string_from_chars(p.as_slice()),
                    size,
                    compressed_size: packed,
                    is_dir,
                    modified: None,
                    method,
                },
            );
            assert(out@.take(before.len() as int) =~= before);
        },
        None => {
            assert(out@.take(out@.len() as int) =~= out@);
        },
    }
}

fn key_is(k: &[char], name: &str) -> (b: bool)
    ensures
        b == (k@ == name@),
{
    eq_str(k, name)
}

fn set_field_exec(b: &mut Block, k: &[char], v: Vec<char>)
    ensures
        block_view(*final(b)) == set_field(block_view(*old(b)), k@, v@),
{
    if key_is(k, "Path") {
        b.path = Some(v);
    } else if key_is(k, "Attributes") {
        b.attrs = Some(v);
    } else if key_is(k, "Size") {
        b.size = Some(v);
    } else if key_is(k, "Packed Size") {
        b.packed = Some(v);
    } else if key_is(k, "Method") {
        b.method = Some(v);
    }
}

fn first_index_exec(s: &[char], c: char) -> (r: Option<usize>)
    ensures
        match r {
            Some(i) => i == first_index_of(s@, c) && i < s@.len(),
            None => first_index_of(s@, c) == -1,
        },
{
    let mut i: usize = 0;
    proof {
        lemma_skip0(s@);
    }
    while i < s.len()
        invariant
            i <= s@.len(),
            first_index_of(s@, c) == if first_index_of(s@.skip(i as int), c) < 0 {
                -1
            } else {
                i + first_index_of(s@.skip(i as int), c)
            },
        decreases s.len() - i,
    {
        assert(s@.skip(i as int).drop_first() =~= s@.skip(i + 1));
        if s[i] == c {
            return Some(i);
        }
        i = i + 1;
    }
    None
}

proof fn lemma_skip0(s: Seq<char>)
    ensures
        s.skip(0) == s,
{
    assert(s.skip(0) =~= s);
}

fn copy_chars(s: &[char], lo: usize, hi: usize) -> (out: Vec<char>)
    requires
        lo <= hi <= s@.len(),
    ensures
        out@ == s@.subrange(lo as int, hi as int),
{
    let mut out: Vec<char> = Vec::new();
    let mut i = lo;
    while i < hi
        invariant
            lo <= i <= hi,
            hi <= s@.len(),
            out@ == s@.subrange(lo as int, i as int),
        decreases hi - i,
    {
        out.push(s[i]);
        i = i + 1;
        assert(out@ =~= s@.subrange(lo as int, i as int));
    }
    out
}

/// Reads the entries of a `7z l -slt` listing.
pub fn parse_list(s: &str) -> (r: Vec<EntryInfo>)
    ensures
        cli_entries_are(r@, parse_list_spec(s@)),
{
    let sc = chars_of(s);
    let lines = split_on_exec(sc.as_slice(), '\n');
    let ghost lv = lines@.map_values(|v: Vec<char>| v@);
    let mut block = new_block();
    let mut out: Vec<EntryInfo> = Vec::new();
    let mut k: usize = 0;
    while k < lines.len()
        invariant
            k <= lines@.len(),
            lv == lines@.map_values(|v: Vec<char>| v@),
            lv.len() == lines@.len(),
            block_view(block) == lines_state(lv, k as int).0,
            cli_entries_are(out@, lines_state(lv, k as int).1),
        decreases lines.len() - k,
    {
        let line = &lines[k];
        let l = trim_chars(line.as_slice());
        let ghost st = lines_state(lv, k as int);
        proof {
            assert(lv[k as int] == line@);
        }
        if l.len() == 0 {
            let ghost before = out@;
            flush(&block, &mut out);
            block = new_block();
            proof {
                let fb = flush_block(st.0);
                assert forall|i: int| 0 <= i < out@.len() implies cli_entry_is(
                    #[trigger] out@[i],
                    (st.1 + fb)[i],
                ) by {
                    if i < before.len() {
                        assert(out@[i] == out@.take(before.len() as int)[i]);
                    } else {
                        assert(out@[before.len() + (i - before.len())] == out@[i]);
                    }
                }
            }
        } else {
            match first_index_exec(l.as_slice(), '=') {
                Some(i) => {
                    let kc = copy_chars(l.as_slice(), 0, i);
                    let key = trim_chars(kc.as_slice());
                    let vc = copy_chars(l.as_slice(), i + 1, l.len());
                    let val = trim_chars(vc.as_slice());
                    assert(kc@ =~= l@.take(i as int));
                    assert(vc@ =~= l@.skip(i + 1));
                    set_field_exec(&mut block, key.as_slice(), val);
                },
                None => {},
            }
        }
        k = k + 1;
    }
    let ghost st = lines_state(lv, k as int);
    let ghost before = out@;
    flush(&block, &mut out);
    proof {
        let fb = flush_block(st.0);
        assert forall|i: int| 0 <= i < out@.len() implies cli_entry_is(
            #[trigger] out@[i],
            (st.1 + fb)[i],
        ) by {
            if i < before.len() {
                assert(out@[i] == out@.take(before.len() as int)[i]);
            } else {
                assert(out@[before.len() + (i - before.len())] == out@[i]);
            }
        }
    }
    out
}

/// The password argument: `-p<password>` when a non-empty password is given.
pub open spec fn password_args(password: Option<Seq<char>>) -> Seq<Seq<char>> {
    match password {
        Some(p) => if p.len() > 0 {
            seq!["-p"@ + p]
        } else {
            Seq::<Seq<char>>::empty()
        },
        None => Seq::<Seq<char>>::empty(),
    }
}

fn push_arg(args: &mut Vec<String>, a: String)
    ensures
        strs(final(args)@) == strs(old(args)@).push(a@),
{
    args.push(a);
    assert(strs(args@) =~= strs(old(args)@).push(a@));
}

pub(crate) fn push_text(args: &mut Vec<String>, a: &str)
    ensures
        strs(final(args)@) == strs(old(args)@).push(a@),
{
    push_arg(args, a.to_owned());
}

fn push_password(args: &mut Vec<String>, password: Option<&str>)
    ensures
        strs(final(args)@) == strs(old(args)@) + password_args(opt_view(password)),
{
    match password {
        Some(p) => {
            if p.is_empty() {
                assert(strs(args@) =~= strs(args@) + password_args(opt_view(password)));
            } else {
                let a = concat_string("-p", p);
                push_arg(args, a);
                assert(strs(old(args)@).push("-p"@ + p@) =~= strs(old(args)@) + password_args(
                    opt_view(password),
                ));
            }
        },
        None => {
            assert(strs(args@) =~= strs(args@) + password_args(opt_view(password)));
        },
    }
}

/// Arguments that list an archive with technical detail: `l -slt <archive>`.
pub fn list_args(archive: &str, password: Option<&str>) -> (r: Vec<String>)
    ensures
        strs(r@) == seq!["l"@, "-slt"@, archive@] + password_args(opt_view(password)),
{
    let mut v: Vec<String> = Vec::new();
    push_text(&mut v, "l");
    push_text(&mut v, "-slt");
    push_text(&mut v, archive);
    assert(strs(v@) =~= seq!["l"@, "-slt"@, archive@]);
    push_password(&mut v, password);
    v
}

/// Arguments that extract an archive, keeping paths, answering yes to every
/// question: `x <archive> -o <dest> -y`, then the chosen entries (all of
/// them when none are chosen).
pub fn extract_args(archive: &str, dest: &str, entries: Option<&[String]>, password: Option<&str>) -> (r:
    Vec<String>)
    ensures
        strs(r@) == seq!["x"@, archive@, "-o"@, dest@, "-y"@] + match entries {
            Some(es) => strs(es@),
            None => Seq::<Seq<char>>::empty(),
        } + password_args(opt_view(password)),
{
    let mut v: Vec<String> = Vec::new();
    push_text(&mut v, "x");
    push_text(&mut v, archive);
    push_text(&mut v, "-o");
    push_text(&mut v, dest);
    push_text(&mut v, "-y");
    let ghost head = seq!["x"@, archive@, "-o"@, dest@, "-y"@];
    assert(strs(v@) =~= head);
    match entries {
        Some(es) => {
            let mut i: usize = 0;
            while i < es.len()
                invariant
                    i <= es@.len(),
                    strs(v@) == head + strs(es@).take(i as int),
                decreases es.len() - i,
            {
                push_text(&mut v, es[i].as_str());
                i = i + 1;
                assert(strs(v@) =~= head + strs(es@).take(i as int));
            }
            assert(strs(es@).take(i as int) =~= strs(es@));
        },
        None => {
            assert(strs(v@) =~= head + Seq::<Seq<char>>::empty());
        },
    }
    push_password(&mut v, password);
    v
}

/// Arguments that extract one entry, without its path, into `dir`:
/// `e <archive> <entry> -o<dir> -y`.
pub fn preview_args(archive: &str, entry: &str, dir: &str, password: Option<&str>) -> (r: Vec<String>)
    ensures
        strs(r@) == seq!["e"@, archive@, entry@, "-o"@ + dir@, "-y"@] + password_args(opt_view(password)),
{
    let mut v: Vec<String> = Vec::new();
    push_text(&mut v, "e");
    push_text(&mut v, archive);
    push_text(&mut v, entry);
    push_arg(&mut v, concat_string("-o", dir));
    push_text(&mut v, "-y");
    assert(strs(v@) =~= seq!["e"@, archive@, entry@, "-o"@ + dir@, "-y"@]);
    push_password(&mut v, password);
    v
}

/// Arguments that test an archive: `t <archive>`.
pub fn test_args(archive: &str, password: Option<&str>) -> (r: Vec<String>)
    ensures
        strs(r@) == seq!["t"@, archive@] + password_args(opt_view(password)),
{
    let mut v: Vec<String> = Vec::new();
    push_text(&mut v, "t");
    push_text(&mut v, archive);
    assert(strs(v@) =~= seq!["t"@, archive@]);
    push_password(&mut v, password);
    v
}

/// The error for a `7z` that could not be started.
pub fn launch_failure(detail: &str) -> (e: AppError)
    ensures
        is_other_err(e, "调用 7z 失败: "@ + detail@),
{
    AppError::Other(concat_string("调用 7z 失败: ", detail))
}

/// What a finished `7z l -slt` gives: its entries, or, when it failed, an
/// unsupported-format error quoting what it printed to stderr.
pub fn list_outcome(success: bool, stdout: &[u8], stderr: &[u8]) -> (r: AppResult<Vec<EntryInfo>>)
    ensures
        success ==> (r matches Ok(es) && cli_entries_are(es@, parse_list_spec(utf8_lossy(stdout@)))),
        !success ==> (r matches Err(e) && is_unsupported_err(e, "7z 列出失败: "@ + utf8_lossy(stderr@))),
{
    if !success {
        let msg = utf8_lossy_string(stderr);
        return Err(unsupported_err("7z 列出失败: ", msg.as_str()));
    }
    let out = utf8_lossy_string(stdout);
    Ok(parse_list(out.as_str()))
}

/// What a finished `7z x` gives: the number of files now under `dest`, or,
/// when it failed, an archive error quoting its stderr.
pub fn extract_outcome(success: bool, stderr: &[u8], count: usize, dest: &str) -> (r: AppResult<
    ExtractResult,
>)
    ensures
        success ==> (r matches Ok(x) && x.extracted == count && x.dest@ == dest@),
        !success ==> (r matches Err(e) && is_archive_err(e, "7z 解压失败: "@ + utf8_lossy(stderr@))),
{
    if !success {
        let msg = utf8_lossy_string(stderr);
        return Err(archive_err("7z 解压失败: ", msg.as_str()));
    }
    Ok(ExtractResult { extracted: count, dest: dest.to_owned() })
}

/// Each `/` and `\` replaced by `_`.
pub open spec fn flatten_seps(s: Seq<char>) -> Seq<char> {
    s.map_values(|c: char| if c == '/' || c == '\\' { '_' } else { c })
}

/// The file name `7z e` writes an entry to: the entry's final name, or,
/// without one, the entry with its separators flattened.
pub open spec fn preview_basename_spec(entry: Seq<char>) -> Seq<char> {
    match file_name(entry) {
        Some(n) => n,
        None => flatten_seps(entry),
    }
}

/// The file name `7z e` writes an entry to.
pub fn preview_basename(entry: &str) -> (r: String)
    ensures
        r@ == preview_basename_spec(entry@),
{
    let ec = chars_of(entry);
    match file_name_exec(ec.as_slice()) {
        Some(n) => string_from_chars(n.as_slice()),
        None => {
            let mut out: Vec<char> = Vec::new();
            let mut i: usize = 0;
            while i < ec.len()
                invariant
                    i <= ec@.len(),
                    ec@ == entry@,
                    out@ == flatten_seps(ec@).take(i as int),
                decreases ec.len() - i,
            {
                let c = ec[i];
                if c == '/' || c == '\\' {
                    out.push('_');
                } else {
                    out.push(c);
                }
                i = i + 1;
                assert(out@ =~= flatten_seps(ec@).take(i as int));
            }
            assert(flatten_seps(ec@).take(i as int) =~= flatten_seps(ec@));
            string_from_chars(out.as_slice())
        },
    }
}

/// What a finished `7z e` gives: an archive error quoting its stderr when it
/// failed; an unsupported-format error when no file was written for the
/// entry; else the preview of the extracted data.
pub fn preview_outcome(success: bool, stderr: &[u8], entry: &str, extracted: Option<&[u8]>, max: usize) -> (r:
    AppResult<PreviewData>)
    ensures
        !success ==> (r matches Err(e) && is_archive_err(e, "7z 提取条目失败: "@ + utf8_lossy(stderr@))),
        success && extracted is None ==> (r matches Err(e) && is_unsupported_err(
            e,
            "归档内找不到条目: "@ + entry@,
        )),
        success && extracted is Some ==> (r matches Ok(p) && ({
            let data = extracted->0@;
            let head = data.take(if data.len() < max { data.len() as int } else { max as int });
            preview_of(
                p,
                entry@,
                if cli_is_binary(head) { mime_of_spec(entry@) } else { "text/plain"@ },
                head,
                data.len() > max,
                cli_is_binary(head),
            )
        })),
{
    if !success {
        let msg = utf8_lossy_string(stderr);
        return Err(archive_err("7z 提取条目失败: ", msg.as_str()));
    }
    match extracted {
        None => Err(unsupported_err("归档内找不到条目: ", entry)),
        Some(data) => Ok(build_preview(entry, data, max)),
    }
}

/// What a finished `7z t` gives: the archive passes when `7z` succeeded and
/// its output says `Everything is Ok`; no per-entry results are given.
pub fn test_outcome(success: bool, stdout: &[u8]) -> (t: TestResult)
    ensures
        t.ok == (success && contains_seq(utf8_lossy(stdout@), "Everything is Ok"@)),
        t.entries@.len() == 0,
{
    let out = utf8_lossy_string(stdout);
    let oc = chars_of(out.as_str());
    let ok = success && contains_str(oc.as_slice(), "Everything is Ok");
    TestResult { ok, entries: Vec::new() }
}


/// The first `c` of `x ++ y` lies in `y` when `x` holds none.
proof fn lemma_first_index_concat(x: Seq<char>, y: Seq<char>, c: char)
    requires
        !x.contains(c),
    ensures
        first_index_of(x + y, c) == if first_index_of(y, c) < 0 {
            -1
        } else {
            x.len() + first_index_of(y, c)
        },
    decreases x.len(),
{
    if x.len() == 0 {
        assert(x + y =~= y);
    } else {
        assert((x + y).drop_first() =~= x.drop_first() + y);
        assert((x + y)[0] == x[0]);
        assert(!x.drop_first().contains(c)) by {
            if x.drop_first().contains(c) {
                let j = choose|j: int| 0 <= j < x.drop_first().len() && x.drop_first()[j] == c;
                assert(x[j + 1] == c);
            }
        }
        assert(x[0] != c);
        lemma_first_index_concat(x.drop_first(), y, c);
    }
}

/// A text without `c` is one piece when split at `c`.
proof fn lemma_split_whole(x: Seq<char>, c: char)
    requires
        !x.contains(c),
    ensures
        split_on(x, c) == seq![x],
{
    lemma_last_index_bounds(x, c);
    if last_index_of(x, c) >= 0 {
        assert(x[last_index_of(x, c)] == c);
    }
}

/// A `key = value` line with a value that has no white space at its ends
/// records that value under the key.
proof fn lemma_field_line(key: Seq<char>, v: Seq<char>, b: CliBlock, es: Seq<CliEntry>)
    requires
        key.len() > 0,
        !is_ws(key[0]),
        !is_ws(key.last()),
        !key.contains('='),
        v.len() > 0,
        !is_ws(v[0]),
        !is_ws(v.last()),
    ensures
        line_step((b, es), key + " = "@ + v) == (set_field(b, key, v), es),
{
    reveal_strlit(" = ");
    let l = key + " = "@ + v;
    assert(l[0] == key[0]);
    assert(l.last() == v.last());
    assert(trim_start_ws(l) == l);
    assert(trim_end_ws(l) == l);
    let x = key + seq![' '];
    assert(!x.contains('=')) by {
        if x.contains('=') {
            let j = choose|j: int| 0 <= j < x.len() && x[j] == '=';
            if j < key.len() {
                assert(key[j] == '=');
            }
        }
    }
    let y = seq!['=', ' '] + v;
    assert(l =~= x + y);
    lemma_first_index_concat(x, y, '=');
    assert(first_index_of(y, '=') == 0);
    let i = first_index_of(l, '=');
    assert(i == key.len() + 1);
    assert(l.take(i) =~= x);
    assert(x.drop_last() =~= key);
    assert(trim_start_ws(x) == x);
    assert(trim_end_ws(x) == trim_end_ws(key));
    assert(trim_end_ws(key) == key);
    assert(trim_ws(l.take(i)) == key);
    let w = l.skip(i + 1);
    assert(w =~= seq![' '] + v);
    assert(w.drop_first() =~= v);
    assert(trim_start_ws(w) == trim_start_ws(v));
    assert(trim_start_ws(v) == v);
    assert(trim_end_ws(v) == v);
    assert(trim_ws(w) == v);
}

/// Law: a listed entry is a directory exactly when the Attributes value of
/// its block holds the letter `D` anywhere (`D`, `D_ drwxr-xr-x`, ...): the
/// listing `Path = <p>` then `Attributes = <a>` gives one entry, named `p`,
/// which is a directory if and only if `a` contains `D`.
pub proof fn law_directory_by_attributes(p: Seq<char>, a: Seq<char>)
    requires
        p.len() > 0,
        a.len() > 0,
        !p.contains('\n'),
        !a.contains('\n'),
        !is_ws(p[0]),
        !is_ws(p.last()),
        !is_ws(a[0]),
        !is_ws(a.last()),
    ensures
        ({
            let out = parse_list_spec("Path = "@ + p + "\nAttributes = "@ + a);
            &&& out.len() == 1
            &&& out[0].0 == p
            &&& out[0].3 == a.contains('D')
            &&& out[0].1 == 0
            &&& out[0].2 is None
            &&& out[0].4 is None
        }),
{
    reveal_strlit("Path = ");
    reveal_strlit("\nAttributes = ");
    reveal_strlit("Path");
    reveal_strlit("Attributes");
    reveal_strlit(" = ");
    let l1 = "Path"@ + " = "@ + p;
    let l2 = "Attributes"@ + " = "@ + a;
    let s = "Path = "@ + p + "\nAttributes = "@ + a;
    assert(s =~= l1 + seq!['\n'] + l2);
    assert(!l1.contains('\n')) by {
        if l1.contains('\n') {
            let j = choose|j: int| 0 <= j < l1.len() && l1[j] == '\n';
            if j >= 7 {
                assert(p[j - 7] == '\n');
            }
        }
    }
    assert(!l2.contains('\n')) by {
        if l2.contains('\n') {
            let j = choose|j: int| 0 <= j < l2.len() && l2[j] == '\n';
            if j >= 13 {
                assert(a[j - 13] == '\n');
            }
        }
    }
    lemma_last_index_bounds(l2, '\n');
    if last_index_of(l2, '\n') >= 0 {
        assert(l2[last_index_of(l2, '\n')] == '\n');
    }
    lemma_last_index_concat(l1 + seq!['\n'], l2, '\n');
    lemma_last_index_concat(l1, seq!['\n'], '\n');
    assert(last_index_of(seq!['\n'], '\n') == 0);
    let k = last_index_of(s, '\n');
    assert(k == l1.len());
    assert(s.take(k) =~= l1);
    assert(s.skip(k + 1) =~= l2);
    lemma_split_whole(l1, '\n');
    let lines = split_on(s, '\n');
    assert(lines =~= seq![l1, l2]);
    assert(!"Path"@.contains('=')) by {
        if "Path"@.contains('=') {
            let j = choose|j: int| 0 <= j < 4 && "Path"@[j] == '=';
        }
    }
    assert(!"Attributes"@.contains('=')) by {
        if "Attributes"@.contains('=') {
            let j = choose|j: int| 0 <= j < 10 && "Attributes"@[j] == '=';
        }
    }
    let e = Seq::<CliEntry>::empty();
    lemma_field_line("Path"@, p, empty_block(), e);
    let b1 = set_field(empty_block(), "Path"@, p);
    assert(b1 == (Some(p), None::<Seq<char>>, None::<Seq<char>>, None::<Seq<char>>, None::<Seq<char>>));
    lemma_field_line("Attributes"@, a, b1, e);
    assert("Attributes"@ != "Path"@);
    let b2 = set_field(b1, "Attributes"@, a);
    assert(b2 == (Some(p), Some(a), None::<Seq<char>>, None::<Seq<char>>, None::<Seq<char>>));
    assert(lines_state(lines, 0) == (empty_block(), e));
    assert(lines[0] == l1);
    assert(lines_state(lines, 1) == (b1, e));
    assert(lines[1] == l2);
    assert(lines_state(lines, 2) == (b2, e));
    assert(parse_list_spec(s) == e + flush_block(b2));
}

} // verus!
