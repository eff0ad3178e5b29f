//! Remembering archive passwords in the macOS keychain, through the
//! `security` tool: the arguments it is run with, and what its answers
//! mean. Running it happens at the edge of the program; on other systems
//! there is no keychain and passwords are not kept.

use vstd::prelude::*;
use vstd::utf8::*;

use crate::error::{is_other_err, AppError, AppResult};
use crate::sevenzip_cli::push_text;
use crate::text::{
    chars_of, decimal, decimal_chars, is_ws, push_chars, push_str, string_from_chars, string_from_utf8, strs, trim_chars,
    trim_end_ws, trim_start_ws, trim_ws,
};

verus! {

/// The keychain service the passwords are stored under; the account is the
/// archive's full path.
pub open spec fn service() -> Seq<char> {
    "arkbox"@
}

/// The arguments of `security` that store `password` for `archive`,
/// replacing a password stored before (`-U`).
pub fn add_password_args(archive: &str, password: &str) -> (r: Vec<String>)
    ensures
        strs(r@) == seq![
            "add-generic-password"@,
            "-a"@,
            archive@,
            "-s"@,
            service(),
            "-w"@,
            password@,
            "-U"@,
        ],
{
    let mut v: Vec<String> = Vec::new();
    push_text(&mut v, "add-generic-password");
    push_text(&mut v, "-a");
    push_text(&mut v, archive);
    push_text(&mut v, "-s");
    push_text(&mut v, "arkbox");
    push_text(&mut v, "-w");
    push_text(&mut v, password);
    push_text(&mut v, "-U");
    assert(strs(v@) =~= seq![
        "add-generic-password"@,
        "-a"@,
        archive@,
        "-s"@,
        service(),
        "-w"@,
        password@,
        "-U"@,
    ]);
    v
}

/// The arguments of `security` that print the password stored for
/// `archive`.
pub fn find_password_args(archive: &str) -> (r: Vec<String>)
    ensures
        strs(r@) == seq!["find-generic-password"@, "-a"@, archive@, "-s"@, service(), "-w"@],
{
    let mut v: Vec<String> = Vec::new();
    push_text(&mut v, "find-generic-password");
    push_text(&mut v, "-a");
    push_text(&mut v, archive);
    push_text(&mut v, "-s");
    push_text(&mut v, "arkbox");
    push_text(&mut v, "-w");
    assert(strs(v@) =~= seq!["find-generic-password"@, "-a"@, archive@, "-s"@, service(), "-w"@]);
    v
}

/// The decimal text of an integer, with a `-` before a negative one.
pub open spec fn signed_decimal(n: int) -> Seq<char> {
    if n < 0 {
        "-"@ + decimal((-n) as nat)
    } else {
        decimal(n as nat)
    }
}

/// The message when `security` could not store the password: its exit
/// code, or -1 when it has none (it was stopped by a signal).
pub open spec fn save_failed_msg(exit_code: Option<i32>) -> Seq<char> {
    "保存密码到钥匙串失败 (exit "@ + signed_decimal(
        match exit_code {
            Some(c) => c as int,
            None => -1,
        },
    ) + ")"@
}

/// What storing a password came to, from how `security` ended: success when
/// it exited successfully, otherwise an error with its exit code.
pub fn save_outcome(success: bool, exit_code: Option<i32>) -> (r: AppResult<()>)
    ensures
        success ==> r is Ok,
        !success ==> (r matches Err(e) && is_other_err(e, save_failed_msg(exit_code))),
{
    if success {
        return Ok(());
    }
    let c: i32 = match exit_code {
        Some(c) => c,
        None => -1,
    };
    let mut out: Vec<char> = Vec::new();
    push_str(&mut out, "保存密码到钥匙串失败 (exit ");
    if c < 0 {
        push_str(&mut out, "-");
        let mag: u64 = (0i64 - (c as i64)) as u64;
        let d = decimal_chars(mag);
        push_chars(&mut out, d.as_slice());
    } else {
        let d = decimal_chars(c as u64);
        push_chars(&mut out, d.as_slice());
    }
    push_str(&mut out, ")");
    proof {
        let n: int = match exit_code {
            Some(k) => k as int,
            None => -1,
        };
        assert(n == c as int);
        if c < 0 {
            assert(out@ =~= "保存密码到钥匙串失败 (exit "@ + ("-"@ + decimal((-n) as nat)) + ")"@);
        } else {
            assert(out@ =~= "保存密码到钥匙串失败 (exit "@ + decimal(n as nat) + ")"@);
        }
    }
    Err(AppError::Other(string_from_chars(out.as_slice())))
}

/// The password `security` printed: none when it failed (nothing stored),
/// when its output is not UTF-8, or when it is only white space; otherwise
/// the output with the white space around it removed.
pub open spec fn stored_password_spec(found: bool, stdout: Seq<u8>) -> Option<Seq<char>> {
    if !found || !valid_utf8(stdout) {
        None
    } else if trim_ws(decode_utf8(stdout)).len() == 0 {
        None
    } else {
        Some(trim_ws(decode_utf8(stdout)))
    }
}

/// The password stored for an archive, read from what `security` printed
/// and whether it succeeded.
pub fn stored_password(found: bool, stdout: Vec<u8>) -> (r: Option<String>)
    ensures
        match stored_password_spec(found, stdout@) {
            Some(p) => r matches Some(s) && s@ == p,
            None => r is None,
        },
{
    if !found {
        return None;
    }
    let text = match string_from_utf8(stdout) {
        Some(t) => t,
        None => {
            return None;
        },
    };
    let tc = chars_of(text.as_str());
    let t = trim_chars(tc.as_slice());
    if t.len() == 0 {
        return None;
    }
    Some(string_from_chars(t.as_slice()))
}

/// Law: a password without white space at its ends, stored and then printed
/// by `security` (which ends its output with a newline), is read back as
/// the very same password.
pub proof fn law_stored_password_read_back(pw: Seq<char>)
    requires
        pw.len() > 0,
        !is_ws(pw[0]),
        !is_ws(pw.last()),
    ensures
        stored_password_spec(true, encode_utf8(pw.push('\n'))) == Some(pw),
{
    let out = pw.push('\n');
    encode_utf8_valid_utf8(out);
    encode_utf8_decode_utf8(out);
    assert(decode_utf8(encode_utf8(out)) == out);
    assert(trim_start_ws(out) == out);
    assert(is_ws(out.last()));
    assert(out.drop_last() =~= pw);
    assert(trim_end_ws(out) == trim_end_ws(pw));
    assert(trim_end_ws(pw) == pw);
    assert(trim_ws(out) == pw);
}

} // verus!
