//! The text of `--help`.

use vstd::prelude::*;

use crate::usage_error::USAGE;

verus! {

/// What `--help` says after the usage lines. The usage line itself is
/// [`USAGE`], written once for `--help` and for usage errors.
pub const HELP_DETAIL: &'static str = "\
arguments:
    DIR        直下を見るディレクトリ。その中で .git を持つものがリポジトリになる。
               再帰しない。省略したら今いる場所（.）

options:
    --stale-days N   既定枝以外の枝を「古い」と呼ぶまでの日数（既定 30）
    --no-github      gh を起動しない。GitHub の3列は n/a になる（オフライン用）
    --               以降を旗として解釈しない
    -h, --help       この使い方を出す
    -V, --version    版を出す

columns:
    REPO           ディレクトリ名（バイト順）
    BRANCH         いま居る枝。detached なら (detached)
    DIRTY          変更・未追跡・衝突のエントリ数
    AHEAD/BEHIND   上流との差。上流が無ければ (none)
    PR             open な PR の数
    CI             既定枝の先頭コミットの検査（ok / FAIL / ... / -）
    STALE          --stale-days より古い枝の数

    -    ゼロ・該当なし
    n/a  origin が GitHub でない（聞いていない）
    ?    取れなかった（理由は標準エラーに1行ずつ）

exit status:
    0   全行が確定した
    1   ? を含む行がある（表は出ている）
    2   使い方の誤り・DIR が読めない・時計が読めない";

/// The first line of `--help`.
pub const HELP_TITLE: &'static str = "fleet-top — 数十の git リポジトリの状態を1画面で返す";

/// The whole of `--help`: the title, the usage lines, then the details.
pub open spec fn help_view() -> Seq<char> {
    HELP_TITLE@ + "\n\nusage:\n    "@ + USAGE@ + "\n    fleet-top --help | --version\n\n"@ + HELP_DETAIL@ + "\n"@
}

/// The text `--help` shows (standard output; `--help` is a success).
pub fn help_text() -> (text: String)
    ensures
        text@ == help_view(),
{
    let mut text = String::from_str(HELP_TITLE);
    text.append("\n\nusage:\n    ");
    text.append(USAGE);
    text.append("\n    fleet-top --help | --version\n\n");
    text.append(HELP_DETAIL);
    text.append("\n");
    text
}

} // verus!
