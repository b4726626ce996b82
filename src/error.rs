//! The failures a run can end in, and the text each one is reported with.
use vstd::prelude::*;

verus! {

/// Why a run stopped without reaching the end of the program.
#[derive(Clone, Copy, Debug, PartialEq, Eq, Structural)]
pub enum ErrorKind {
    /// A `]` with no `[` before it at the same nesting depth.
    UnmatchedClose,
    /// A `[` that no later `]` closes.
    UnmatchedOpen,
    /// A `,` was reached after every input character had been read.
    InputExhausted,
    /// The step budget ran out before the program counter reached the end.
    StepLimitReached,
}

/// The text reported for each kind of failure.
pub open spec fn message_of(kind: ErrorKind) -> Seq<char> {
    match kind {
        ErrorKind::UnmatchedClose => "`]`に対応する`[`が見つかりません。"@,
        ErrorKind::UnmatchedOpen => "`[`に対応する`]`が見つかりません。"@,
        ErrorKind::InputExhausted => "入力が与えられませんでした。"@,
        ErrorKind::StepLimitReached => "実行ステップ数の上限に達しました。"@,
    }
}

impl ErrorKind {
    /// The human-readable text of this failure.
    pub fn message(&self) -> (r: String)
        ensures
            r@ == message_of(*self),
    {
        match self {
            ErrorKind::UnmatchedClose => String::from_str("`]`に対応する`[`が見つかりません。"),
            ErrorKind::UnmatchedOpen => String::from_str("`[`に対応する`]`が見つかりません。"),
            ErrorKind::InputExhausted => String::from_str("入力が与えられませんでした。"),
            ErrorKind::StepLimitReached => String::from_str("実行ステップ数の上限に達しました。"),
        }
    }
}

} // verus!
