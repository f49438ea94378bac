//! What holds of probes, whatever is configured and whatever they answer.

use crate::checker;
use crate::checker::{Answer, Ending, Probe, ProbeView};
use crate::models::{CheckType, ServiceConfigView};
use crate::text;
use vstd::prelude::*;

verus! {

/// The address that is joined with a path is the front part of the configured one. Behind it
/// stand slashes only, and it ends with none.
pub proof fn law_only_slashes_go(address: Seq<char>)
    ensures
        ({
            let base = checker::without_slashes(address);
            &&& base.len() <= address.len()
            &&& base == address.take(base.len() as int)
            &&& forall|i: int| base.len() <= i < address.len() ==> #[trigger] address[i] == '/'
            &&& base.len() > 0 ==> base[base.len() - 1] != '/'
        }),
    decreases address.len(),
{
    let base = checker::without_slashes(address);
    if address.len() > 0 && address.last() == '/' {
        let shorter = address.drop_last();
        law_only_slashes_go(shorter);
        assert(base =~= address.take(base.len() as int));
        assert forall|i: int| base.len() <= i < address.len() implies #[trigger] address[i] == '/' by {
            if i < shorter.len() {
                assert(shorter[i] == address[i]);
            }
        }
    } else {
        assert(base =~= address.take(base.len() as int));
    }
}

/// An address that does not end with a slash is taken as it is, and slashes behind an address
/// make no difference.
pub proof fn law_addresses_stay(address: Seq<char>)
    ensures
        address.len() == 0 || address.last() != '/' ==> checker::without_slashes(address)
            == address,
        checker::without_slashes(address.push('/')) == checker::without_slashes(address),
{
    law_only_slashes_go(address);
    assert(address.push('/').drop_last() =~= address);
}

/// Characters that are white space: from the tabulator to the carriage return, the next line,
/// the spaces of all widths, and the separators of lines and paragraphs.
pub proof fn law_white_space(c: char)
    ensures
        checker::white_space(c) <==> {
            ||| c == '\t'
            ||| c == '\n'
            ||| c == '\u{b}'
            ||| c == '\u{c}'
            ||| c == '\r'
            ||| c == ' '
            ||| c == '\u{85}'
            ||| c == '\u{a0}'
            ||| c == '\u{1680}'
            ||| '\u{2000}' <= c <= '\u{200a}'
            ||| c == '\u{2028}'
            ||| c == '\u{2029}'
            ||| c == '\u{202f}'
            ||| c == '\u{205f}'
            ||| c == '\u{3000}'
        },
{
}

/// What is left of a text without the white space at its ends: a part of it, with white space
/// only before it and behind it, and none at its own ends.
pub proof fn law_only_white_space_goes(words: Seq<char>) -> (range: (int, int))
    ensures
        0 <= range.0 <= range.1 <= words.len(),
        checker::trimmed(words) == words.subrange(range.0, range.1),
        forall|i: int| 0 <= i < range.0 ==> checker::white_space(#[trigger] words[i]),
        forall|i: int| range.1 <= i < words.len() ==> checker::white_space(#[trigger] words[i]),
        range.0 < range.1 ==> !checker::white_space(words[range.0]) && !checker::white_space(
            words[range.1 - 1],
        ),
    decreases words.len(),
{
    if words.len() > 0 && checker::white_space(words.first()) {
        let shorter = words.drop_first();
        let (from, to) = law_only_white_space_goes(shorter);
        assert(shorter.subrange(from, to) =~= words.subrange(from + 1, to + 1));
        assert forall|i: int| 0 <= i < from + 1 implies checker::white_space(#[trigger] words[i]) by {
            if i > 0 {
                assert(shorter[i - 1] == words[i]);
            }
        }
        assert forall|i: int| to + 1 <= i < words.len() implies checker::white_space(
            #[trigger] words[i],
        ) by {
            assert(shorter[i - 1] == words[i]);
        }
        (from + 1, to + 1)
    } else if words.len() > 0 && checker::white_space(words.last()) {
        let shorter = words.drop_last();
        let (from, to) = law_only_white_space_goes(shorter);
        assert(shorter.subrange(from, to) =~= words.subrange(from, to));
        assert forall|i: int| 0 <= i < from implies checker::white_space(#[trigger] words[i]) by {
            assert(shorter[i] == words[i]);
        }
        assert forall|i: int| to <= i < words.len() implies checker::white_space(
            #[trigger] words[i],
        ) by {
            if i < shorter.len() {
                assert(shorter[i] == words[i]);
            }
        }
        (from, to)
    } else {
        assert(words =~= words.subrange(0, words.len() as int));
        (0, words.len() as int)
    }
}

/// A service is probed over HTTP at its path behind its address, slashes at the end of the
/// address left out, for as long as its timeout.
pub proof fn law_http_probe(config: ServiceConfigView)
    requires
        config.check_type == CheckType::Http,
    ensures
        checker::plan(config) matches Some(ProbeView::Http { url, timeout_secs }) && {
            let split = url.len() - config.check_path.len();
            &&& timeout_secs == config.timeout_secs
            &&& 0 <= split <= config.url.len()
            &&& url.take(split) == config.url.take(split)
            &&& url.skip(split) == config.check_path
            &&& forall|i: int| split <= i < config.url.len() ==> #[trigger] config.url[i] == '/'
            &&& split > 0 ==> config.url[split - 1] != '/'
        },
{
    let base = checker::without_slashes(config.url);
    law_only_slashes_go(config.url);
    let url = base + config.check_path;
    assert(url.take(base.len() as int) =~= base);
    assert(url.skip(base.len() as int) =~= config.check_path);
    assert(base.len() > 0 ==> base[base.len() - 1] == config.url[base.len() - 1]);
}

/// A service is probed over TCP at its address as it is configured.
pub proof fn law_tcp_probe(config: ServiceConfigView)
    requires
        config.check_type == CheckType::Tcp,
    ensures
        checker::plan(config) == Some(ProbeView::Tcp { address: config.url }),
{
}

/// A service is probed by its command with all its arguments, and not at all without a command.
pub proof fn law_command_probe(config: ServiceConfigView)
    requires
        config.check_type == CheckType::Command,
    ensures
        config.command is None ==> checker::plan(config) is None,
        config.command is Some ==> (checker::plan(config) matches Some(
            ProbeView::Command { program, args },
        ) && program == config.command->0 && args == config.command_args),
{
}

/// All of a probe counts.
pub proof fn law_probe_counts(probe: Probe)
    ensures
        probe matches Probe::Http { url, timeout_secs } ==> probe@ == (ProbeView::Http {
            url: url@,
            timeout_secs,
        }),
        probe matches Probe::Tcp { address } ==> probe@ == (ProbeView::Tcp { address: address@ }),
        probe matches Probe::Command { program, args } ==> {
            &&& probe@ is Command
            &&& probe@->program == program@
            &&& probe@->args.len() == args@.len()
            &&& forall|i: int|
                0 <= i < args@.len() ==> probe@->args[i] == #[trigger] args@[i]@
        },
{
}

/// An answer is a success where the status code is one of the two hundreds, where there was a
/// connection, or where the program says so, and a failure otherwise.
pub proof fn law_success(answer: Answer)
    ensures
        checker::failure(answer) is None <==> match answer {
            Answer::HttpStatus(code) => code / 100 == 2,
            Answer::TcpConnected => true,
            Answer::CommandExited { success, .. } => success,
            _ => false,
        },
{
}

/// A failure is explained by what went wrong.
pub proof fn law_failures_are_explained(answer: Answer)
    requires
        checker::failure(answer) is Some,
    ensures
        ({
            let said = checker::failure(answer)->0;
            &&& answer matches Answer::NoClient(why) ==> said == why@
            &&& answer matches Answer::HttpFailed(why) ==> said == "HTTP 请求失败: "@ + why@
            &&& answer matches Answer::HttpStatus(code) ==> said == "HTTP 状态码: "@
                + checker::http_status_text(code)
            &&& answer matches Answer::TcpFailed(why) ==> said == "TCP 连接失败: "@ + why@
            &&& answer matches Answer::CommandFailed(why) ==> said == "执行命令失败: "@ + why@
            &&& answer matches Answer::CommandExited { code: Some(code), stderr, .. } ==> said
                == "命令退出码: "@ + text::signed_decimal(code as int) + ", stderr: "@
                + checker::trimmed(checker::lossy_text(stderr@))
            &&& answer matches Answer::CommandExited { code: None, stderr, .. } ==> said
                == "命令退出码: "@ + text::signed_decimal(-1) + ", stderr: "@ + checker::trimmed(
                checker::lossy_text(stderr@),
            )
        }),
{
}

/// The words for a program that failed hold its exit code, or -1 where a signal ended it, and
/// what it wrote.
pub proof fn law_exit_words(code: Option<i32>, stderr: Seq<char>)
    ensures
        code is None ==> checker::exit_text(code, stderr) == "命令退出码: "@
            + text::signed_decimal(-1) + ", stderr: "@ + checker::trimmed(stderr),
        code is Some ==> checker::exit_text(code, stderr) == "命令退出码: "@
            + text::signed_decimal(code->0 as int) + ", stderr: "@ + checker::trimmed(stderr),
{
}

/// A check that took too long tells how many seconds it had, one that could not be made tells
/// why, and any other one tells what its answer tells.
pub proof fn law_endings(config: ServiceConfigView, ending: Ending)
    ensures
        ending is TimedOut ==> checker::check_error(config, ending) == Some(
            "检查超时 ("@ + text::decimal(config.timeout_secs as nat) + "秒)"@,
        ),
        ending matches Ending::Refused(why) ==> checker::check_error(config, ending) == Some(why@),
        ending matches Ending::Answered(answer) ==> checker::check_error(config, ending)
            == checker::failure(answer),
{
}

/// Every status code of three digits is one that an answer can have, and so is every answer
/// without a status code.
pub proof fn law_valid_answers(answer: Answer)
    ensures
        answer matches Answer::HttpStatus(code) ==> (answer.valid() <==> 100 <= code <= 999),
        !(answer is HttpStatus) ==> answer.valid(),
{
}

} // verus!
