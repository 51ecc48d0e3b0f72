//! The current user's start-at-login entry, a value under the `Run` key of the Windows
//! registry that needs no administrator rights. The value always quotes the executable's
//! path, so that an install folder with spaces still starts.
//!
//! The registry is read and written by `reg.exe`; running it is left to the caller. This
//! module decides what to ask it (`set_enabled`, `registry_args`) and what its answers
//! mean (`is_enabled`, `registry_outcome`).

use crate::text::{append_all, append_str, chars_of, decimal_i64, string_from_chars, trim_str};
use vstd::prelude::*;

verus! {

/// The registry key under which the entry lives.
pub const RUN_KEY: &'static str = "HKCU\\Software\\Microsoft\\Windows\\CurrentVersion\\Run";

/// The name of the entry.
pub const VALUE_NAME: &'static str = "TimeHub";

/// The command stored for the executable: its path in double quotes.
pub fn startup_command(executable: &str) -> (r: String)
    ensures
        r@ == seq!['"'] + executable@ + seq!['"'],
{
    let mut v: Vec<char> = Vec::new();
    v.push('"');
    append_str(&mut v, executable);
    v.push('"');
    string_from_chars(&v)
}

/// What `reg.exe` is asked to do with the entry.
#[derive(Debug, PartialEq, Eq)]
pub enum RegistryRequest {
    /// Whether the entry exists (`reg QUERY`).
    Query,
    /// Store the entry with this command (`reg ADD`, replacing an earlier one).
    Add(String),
    /// Remove the entry (`reg DELETE`).
    Delete,
}

/// The arguments of `reg.exe` for a request.
pub open spec fn registry_args_spec(req: RegistryRequest) -> Seq<Seq<char>> {
    match req {
        RegistryRequest::Query => seq!["QUERY"@, RUN_KEY@, "/v"@, VALUE_NAME@],
        RegistryRequest::Add(c) => seq!["ADD"@, RUN_KEY@, "/v"@, VALUE_NAME@, "/t"@, "REG_SZ"@, "/d"@, c@, "/f"@],
        RegistryRequest::Delete => seq!["DELETE"@, RUN_KEY@, "/v"@, VALUE_NAME@, "/f"@],
    }
}

pub open spec fn texts_of(v: Seq<String>) -> Seq<Seq<char>> {
    Seq::new(v.len(), |i: int| v[i]@)
}

/// The arguments of `reg.exe` for a request (see `registry_args_spec`).
pub fn registry_args(req: &RegistryRequest) -> (r: Vec<String>)
    ensures
        texts_of(r@) == registry_args_spec(*req),
{
    let mut out: Vec<String> = Vec::new();
    match req {
        RegistryRequest::Query => {
            out.push("QUERY".to_string());
            out.push(RUN_KEY.to_string());
            out.push("/v".to_string());
            out.push(VALUE_NAME.to_string());
        },
        RegistryRequest::Add(c) => {
            out.push("ADD".to_string());
            out.push(RUN_KEY.to_string());
            out.push("/v".to_string());
            out.push(VALUE_NAME.to_string());
            out.push("/t".to_string());
            out.push("REG_SZ".to_string());
            out.push("/d".to_string());
            out.push(c.clone());
            out.push("/f".to_string());
        },
        RegistryRequest::Delete => {
            out.push("DELETE".to_string());
            out.push(RUN_KEY.to_string());
            out.push("/v".to_string());
            out.push(VALUE_NAME.to_string());
            out.push("/f".to_string());
        },
    }
    assert(texts_of(out@) =~= registry_args_spec(*req));
    out
}

/// Whether a start-at-login entry exists: on a system with the registry, exactly when
/// `reg QUERY` for it succeeded; elsewhere there is none.
pub fn is_enabled(has_registry: bool, query_succeeded: bool) -> (b: bool)
    ensures
        b == (has_registry && query_succeeded),
{
    has_registry && query_succeeded
}

/// What turning starting at login on or off asks of the registry: `None` when nothing
/// needs doing. Without a registry the setting is refused; turning it on needs the
/// executable's path (the command is `startup_command` of it); turning it off deletes the
/// entry only when one exists.
pub fn set_enabled(has_registry: bool, enabled: bool, executable: Option<&str>, entry_exists: bool) -> (r: Result<
    Option<RegistryRequest>,
    String,
>)
    ensures
        !has_registry ==> (r matches Err(e) && e@ == "当前平台暂不支持开机启动设置"@),
        has_registry && enabled ==> match executable {
            None => r matches Err(e) && e@ == "无法确定 TimeHub 程序路径"@,
            Some(p) => r matches Ok(Some(RegistryRequest::Add(c))) && c@ == seq!['"'] + p@ + seq!['"'],
        },
        has_registry && !enabled && !entry_exists ==> r matches Ok(None),
        has_registry && !enabled && entry_exists ==> r matches Ok(Some(RegistryRequest::Delete)),
{
    if !has_registry {
        return Err("当前平台暂不支持开机启动设置".to_string());
    }
    if enabled {
        match executable {
            None => Err("无法确定 TimeHub 程序路径".to_string()),
            Some(p) => Ok(Some(RegistryRequest::Add(startup_command(p)))),
        }
    } else if entry_exists {
        Ok(Some(RegistryRequest::Delete))
    } else {
        Ok(None)
    }
}

/// The message when `reg.exe` could not be run for a request.
pub fn launch_failure(req: &RegistryRequest) -> (r: String)
    ensures
        r@ == match *req {
            RegistryRequest::Add(_) => "无法写入 Windows 开机启动项"@,
            RegistryRequest::Delete => "无法删除 Windows 开机启动项"@,
            RegistryRequest::Query => "无法读取 Windows 开机启动项"@,
        },
{
    match req {
        RegistryRequest::Add(_) => "无法写入 Windows 开机启动项".to_string(),
        RegistryRequest::Delete => "无法删除 Windows 开机启动项".to_string(),
        RegistryRequest::Query => "无法读取 Windows 开机启动项".to_string(),
    }
}

/// How an exit code is shown: `Some(<code>)`, or `None` when the process had none.
pub open spec fn exit_code_text(code: Option<i32>) -> Seq<char> {
    match code {
        Some(c) => "Some("@ + crate::text::decimal_int(c as int) + ")"@,
        None => "None"@,
    }
}

/// What `reg.exe`'s finish means: success, or an error that carries its trimmed error
/// output, or its exit code when that output is blank.
pub fn registry_outcome(success: bool, stderr: &str, exit_code: Option<i32>) -> (r: Result<(), String>)
    ensures
        success ==> r is Ok,
        !success && crate::text::trim(stderr@).len() > 0 ==> (r matches Err(e) && e@ == "Windows 注册表操作失败："@
            + crate::text::trim(stderr@)),
        !success && crate::text::trim(stderr@).len() == 0 ==> (r matches Err(e) && e@
            == "Windows 注册表操作失败（退出码 "@ + exit_code_text(exit_code) + "）"@),
{
    if success {
        return Ok(());
    }
    let detail = trim_str(stderr);
    if detail.len() > 0 {
        let mut v = chars_of("Windows 注册表操作失败：");
        append_all(&mut v, &detail);
        return Err(string_from_chars(&v));
    }
    let mut v = chars_of("Windows 注册表操作失败（退出码 ");
    match exit_code {
        Some(c) => {
            append_str(&mut v, "Some(");
            let digits = decimal_i64(c as i64);
            append_all(&mut v, &digits);
            append_str(&mut v, ")");
        },
        None => append_str(&mut v, "None"),
    }
    append_str(&mut v, "）");
    Err(string_from_chars(&v))
}

} // verus!
