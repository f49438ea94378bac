//! How a service is probed, and what the answer means.

use crate::models;
use crate::models::{CheckType, ServiceConfig, ServiceConfigView};
use crate::text;
use vstd::prelude::*;
use vstd::string::*;

verus! {

/// The result of a check.
#[derive(Debug)]
pub struct CheckResult {
    pub success: bool,
    pub error: Option<String>,
}

impl Clone for CheckResult {
    fn clone(&self) -> (copy: Self)
        ensures
            copy == *self,
    {
        CheckResult { success: self.success, error: self.error.clone() }
    }
}

/// What has to be done to probe a service.
#[derive(Debug)]
pub enum Probe {
    /// A GET request to a URL, which may take so many seconds.
    Http { url: String, timeout_secs: u64 },
    /// A connection to an address.
    Tcp { address: String },
    /// A run of a program.
    Command { program: String, args: Vec<String> },
}

/// What has to be done to probe a service, in mathematical terms.
pub enum ProbeView {
    Http { url: Seq<char>, timeout_secs: u64 },
    Tcp { address: Seq<char> },
    Command { program: Seq<char>, args: Seq<Seq<char>> },
}

impl View for Probe {
    type V = ProbeView;

    open spec fn view(&self) -> ProbeView {
        match *self {
            Probe::Http { url, timeout_secs } => ProbeView::Http { url: url@, timeout_secs },
            Probe::Tcp { address } => ProbeView::Tcp { address: address@ },
            Probe::Command { program, args } => ProbeView::Command {
                program: program@,
                args: models::texts(args@),
            },
        }
    }
}

/// What came of a probe.
#[derive(Debug)]
pub enum Answer {
    /// There was no client for the request; why not.
    NoClient(String),
    /// The request was not answered; why not.
    HttpFailed(String),
    /// The request was answered with a status code.
    HttpStatus(u16),
    /// There was no connection; why not.
    TcpFailed(String),
    /// There was a connection.
    TcpConnected,
    /// The program did not run; why not.
    CommandFailed(String),
    /// The program ran, succeeded or not, with an exit code unless a signal ended it, and
    /// wrote to its standard error.
    CommandExited { success: bool, code: Option<i32>, stderr: Vec<u8> },
}

impl Answer {
    /// Whether a status code in the answer is one of three digits.
    pub open spec fn valid(self) -> bool {
        self matches Answer::HttpStatus(code) ==> 100 <= code < 1000
    }
}

/// How a check ended.
#[derive(Debug)]
pub enum Ending {
    /// Nothing could be probed; why not.
    Refused(String),
    /// The probe came to an end.
    Answered(Answer),
    /// The probe took too long.
    TimedOut,
}

/// A text without the slashes at its end.
pub open spec fn without_slashes(text: Seq<char>) -> Seq<char>
    decreases text.len(),
{
    if text.len() > 0 && text.last() == '/' {
        without_slashes(text.drop_last())
    } else {
        text
    }
}

/// Whether a character is white space, as Unicode has it.
pub open spec fn white_space(c: char) -> bool {
    ||| 0x09 <= c as u32 <= 0x0d
    ||| c as u32 == 0x20
    ||| c as u32 == 0x85
    ||| c as u32 == 0xa0
    ||| c as u32 == 0x1680
    ||| 0x2000 <= c as u32 <= 0x200a
    ||| c as u32 == 0x2028
    ||| c as u32 == 0x2029
    ||| c as u32 == 0x202f
    ||| c as u32 == 0x205f
    ||| c as u32 == 0x3000
}

/// A text without the white space at its two ends.
pub open spec fn trimmed(text: Seq<char>) -> Seq<char>
    decreases text.len(),
{
    if text.len() > 0 && white_space(text.first()) {
        trimmed(text.drop_first())
    } else if text.len() > 0 && white_space(text.last()) {
        trimmed(text.drop_last())
    } else {
        text
    }
}

/// What has to be done to probe a service with a configuration, if anything can be.
pub open spec fn plan(config: ServiceConfigView) -> Option<ProbeView> {
    match config.check_type {
        CheckType::Http => Some(
            ProbeView::Http {
                url: without_slashes(config.url) + config.check_path,
                timeout_secs: config.timeout_secs,
            },
        ),
        CheckType::Tcp => Some(ProbeView::Tcp { address: config.url }),
        CheckType::Command => match config.command {
            Some(program) => Some(ProbeView::Command { program, args: config.command_args }),
            None => None,
        },
    }
}

/// The text of an HTTP status code and its reason.
pub uninterp spec fn http_status_text(code: u16) -> Seq<char>;

/// The text of some bytes, whether they are UTF-8 or not.
pub uninterp spec fn lossy_text(bytes: Seq<u8>) -> Seq<char>;

/// What an answer says that failed, if anything did.
pub open spec fn failure(answer: Answer) -> Option<Seq<char>> {
    match answer {
        Answer::NoClient(why) => Some(why@),
        Answer::HttpFailed(why) => Some("HTTP 请求失败: "@ + why@),
        Answer::HttpStatus(code) => if 200 <= code < 300 {
            None
        } else {
            Some("HTTP 状态码: "@ + http_status_text(code))
        },
        Answer::TcpFailed(why) => Some("TCP 连接失败: "@ + why@),
        Answer::TcpConnected => None,
        Answer::CommandFailed(why) => Some("执行命令失败: "@ + why@),
        Answer::CommandExited { success, code, stderr } => if success {
            None
        } else {
            Some(exit_text(code, lossy_text(stderr@)))
        },
    }
}

/// What is said of a program that failed.
pub open spec fn exit_text(code: Option<i32>, stderr: Seq<char>) -> Seq<char> {
    "命令退出码: "@ + text::signed_decimal(
        match code {
            Some(code) => code as int,
            None => -1,
        },
    ) + ", stderr: "@ + trimmed(stderr)
}

/// What failed in a check, if anything did.
pub open spec fn check_error(config: ServiceConfigView, ending: Ending) -> Option<Seq<char>> {
    match ending {
        Ending::Refused(why) => Some(why@),
        Ending::Answered(answer) => failure(answer),
        Ending::TimedOut => Some("检查超时 ("@ + text::decimal(config.timeout_secs as nat) + "秒)"@),
    }
}

/// The text of an HTTP status code and its reason, from the `Display` of
/// `reqwest::StatusCode`. The code has three digits; another one makes no status code.
#[verifier::external_body]
fn status_text(code: u16) -> (text: String)
    requires
        100 <= code < 1000,
    ensures
        text@ == http_status_text(code),
{
    reqwest::StatusCode::from_u16(code).unwrap().to_string()
}

/// The text of some bytes, from `String::from_utf8_lossy`: what they encode, where they are
/// UTF-8.
#[verifier::external_body]
fn text_of(bytes: &Vec<u8>) -> (text: String)
    ensures
        text@ == lossy_text(bytes@),
        vstd::utf8::valid_utf8(bytes@) ==> text@ == vstd::utf8::decode_utf8(bytes@),
{
    String::from_utf8_lossy(bytes).into_owned()
}

/// Whether a character is white space.
fn is_white_space(c: char) -> (white: bool)
    ensures
        white == white_space(c),
{
    let code: u32 = c as u32;
    (0x09 <= code && code <= 0x0d) || code == 0x20 || code == 0x85 || code == 0xa0 || code == 0x1680
        || (0x2000 <= code && code <= 0x200a) || code == 0x2028 || code == 0x2029 || code == 0x202f
        || code == 0x205f || code == 0x3000
}

/// A text without the white space at its two ends.
fn trim(text: &str) -> (inner: &str)
    ensures
        inner@ == trimmed(text@),
{
    let mut chars: Vec<char> = Vec::new();
    for c in iter: text.chars()
        invariant
            chars@ == iter.seq().take(iter.index()),
            iter.seq() == text@,
    {
        chars.push(c);
        assert(chars@ =~= iter.seq().take(iter.index() + 1));
    }
    assert(chars@ =~= text@);
    let mut from: usize = 0;
    let mut to: usize = chars.len();
    assert(text@.subrange(0, to as int) =~= text@);
    while from < to && is_white_space(chars[from])
        invariant
            chars@ == text@,
            from <= to == chars@.len(),
            trimmed(text@.subrange(from as int, to as int)) == trimmed(text@),
        decreases to - from,
    {
        assert(text@.subrange(from as int, to as int).drop_first() =~= text@.subrange(
            from + 1,
            to as int,
        ));
        from = from + 1;
    }
    while from < to && is_white_space(chars[to - 1])
        invariant
            chars@ == text@,
            from <= to <= chars@.len(),
            from < to ==> !white_space(chars@[from as int]),
            trimmed(text@.subrange(from as int, to as int)) == trimmed(text@),
        decreases to - from,
    {
        assert(text@.subrange(from as int, to as int).drop_last() =~= text@.subrange(
            from as int,
            to - 1,
        ));
        to = to - 1;
    }
    text.substring_char(from, to)
}

/// A text without the slashes at its end.
fn trim_slashes(text: &str) -> (inner: &str)
    ensures
        inner@ == without_slashes(text@),
{
    let mut end: usize = text.unicode_len();
    assert(text@.take(end as int) =~= text@);
    while end > 0 && text.get_char(end - 1) == '/'
        invariant
            end <= text@.len(),
            without_slashes(text@.take(end as int)) == without_slashes(text@),
        decreases end,
    {
        assert(text@.take(end as int).drop_last() =~= text@.take(end - 1));
        end = end - 1;
    }
    assert(text@.take(end as int) =~= text@.subrange(0, end as int));
    text.substring_char(0, end)
}

/// What has to be done to probe a service, or why nothing can be.
pub fn do_check(config: &ServiceConfig) -> (probe: Result<Probe, String>)
    ensures
        match probe {
            Ok(probe) => plan(config@) == Some(probe@),
            Err(why) => plan(config@) is None && why@ == "未配置命令"@,
        },
{
    match config.check_type {
        CheckType::Http => Ok(check_http(config)),
        CheckType::Tcp => Ok(Probe::Tcp { address: config.url.clone() }),
        CheckType::Command => check_command(config),
    }
}

fn check_http(config: &ServiceConfig) -> (probe: Probe)
    ensures
        probe@ == (ProbeView::Http {
            url: without_slashes(config.url@) + config.check_path@,
            timeout_secs: config.timeout_secs,
        }),
{
    let mut url = trim_slashes(config.url.as_str()).to_owned();
    url.append(config.check_path.as_str());
    Probe::Http { url, timeout_secs: config.timeout_secs }
}

fn check_command(config: &ServiceConfig) -> (probe: Result<Probe, String>)
    ensures
        match probe {
            Ok(probe) => {
                &&& config.command is Some
                &&& probe@ == (ProbeView::Command {
                    program: config.command->0@,
                    args: models::texts(config.command_args@),
                })
            },
            Err(why) => config.command is None && why@ == "未配置命令"@,
        },
{
    match &config.command {
        Some(program) => Ok(
            Probe::Command {
                program: program.clone(),
                args: models::copy_texts(&config.command_args),
            },
        ),
        None => Err("未配置命令".to_owned()),
    }
}

/// What is said of a request that was answered with a bad status.
pub fn describe_status(status: &str) -> (why: String)
    ensures
        why@ == "HTTP 状态码: "@ + status@,
{
    let mut why = "HTTP 状态码: ".to_owned();
    why.append(status);
    why
}

/// What is said of a program that failed with an exit code, and wrote to its standard error.
pub fn describe_exit(code: Option<i32>, stderr: &str) -> (why: String)
    ensures
        why@ == exit_text(code, stderr@),
{
    let number = match code {
        Some(code) => text::signed_decimal_text(code),
        None => text::signed_decimal_text(-1),
    };
    let mut why = text::enclose("命令退出码: ", number.as_str(), ", stderr: ");
    why.append(trim(stderr));
    why
}

fn explain(what: &str, why: &String) -> (text: String)
    ensures
        text@ == what@ + why@,
{
    let mut text = what.to_owned();
    text.append(why.as_str());
    text
}

/// Whether a probe succeeded, or what failed.
pub fn judge(answer: &Answer) -> (verdict: Result<(), String>)
    requires
        answer.valid(),
    ensures
        match verdict {
            Ok(()) => failure(*answer) is None,
            Err(why) => failure(*answer) == Some(why@),
        },
{
    match answer {
        Answer::NoClient(why) => Err(why.clone()),
        Answer::HttpFailed(why) => Err(explain("HTTP 请求失败: ", why)),
        Answer::HttpStatus(code) => {
            if 200 <= *code && *code < 300 {
                Ok(())
            } else {
                Err(describe_status(status_text(*code).as_str()))
            }
        },
        Answer::TcpFailed(why) => Err(explain("TCP 连接失败: ", why)),
        Answer::TcpConnected => Ok(()),
        Answer::CommandFailed(why) => Err(explain("执行命令失败: ", why)),
        Answer::CommandExited { success, code, stderr } => {
            if *success {
                Ok(())
            } else {
                Err(describe_exit(*code, text_of(stderr).as_str()))
            }
        },
    }
}

/// The result of a check, from how it ended.
pub fn run_check(config: &ServiceConfig, ending: Ending) -> (result: CheckResult)
    requires
        ending matches Ending::Answered(answer) ==> answer.valid(),
    ensures
        models::optional_text(result.error) == check_error(config@, ending),
        result.success == (result.error is None),
{
    let verdict = match ending {
        Ending::Refused(why) => Err(why),
        Ending::Answered(answer) => judge(&answer),
        Ending::TimedOut => Err(
            text::enclose(
                "检查超时 (",
                text::decimal_text(config.timeout_secs).as_str(),
                "秒)",
            ),
        ),
    };
    match verdict {
        Ok(()) => CheckResult { success: true, error: None },
        Err(why) => CheckResult { success: false, error: Some(why) },
    }
}

} // verus!
