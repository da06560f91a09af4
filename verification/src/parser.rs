//! Parser for the interactive command language: turns a token sequence into a
//! validated script or a descriptive parse error. Keywords are matched
//! case-insensitively against an exact abbreviation table (never by prefix),
//! and a missing target defaults to the selected snapshot.

use vstd::prelude::*;
use vstd::string::StrSliceExecFns;

use crate::scanner::{Token, TokenKind, TokenModel};
use crate::snapshot::SnapshotStatus;
use crate::text::{char_pos, eq_lower, find_char, lower_seq};

verus! {

/// Whether an operation applies to every visible snapshot or only to the
/// selected one.
#[derive(Clone, Copy, Debug, PartialEq, Eq, Structural)]
pub enum Target {
    All,
    Selected,
}

/// One filter predicate, parsed once from its `key:value` (or bare) form.
#[derive(Clone, Debug, PartialEq)]
pub enum FilterPred {
    /// `tag:value`: the snapshot carries the tag exactly.
    ByTag(String),
    /// `status:passed|failed|unknown`: the snapshot has this status.
    ByStatus(SnapshotStatus),
    /// `name:value`: the value occurs in the snapshot's name.
    ByName(String),
    /// A bare word: it occurs in the snapshot's name or command.
    BySubstring(String),
}

/// Mathematical model of a `FilterPred`.
pub ghost enum FilterPredModel {
    ByTag(Seq<char>),
    ByStatus(SnapshotStatus),
    ByName(Seq<char>),
    BySubstring(Seq<char>),
}

impl View for FilterPred {
    type V = FilterPredModel;

    open spec fn view(&self) -> FilterPredModel {
        match self {
            FilterPred::ByTag(t) => FilterPredModel::ByTag(t@),
            FilterPred::ByStatus(st) => FilterPredModel::ByStatus(*st),
            FilterPred::ByName(t) => FilterPredModel::ByName(t@),
            FilterPred::BySubstring(t) => FilterPredModel::BySubstring(t@),
        }
    }
}

impl DeepView for FilterPred {
    type V = FilterPredModel;

    open spec fn deep_view(&self) -> FilterPredModel {
        self.view()
    }
}

/// A validated command.
#[derive(Clone, Debug, PartialEq)]
pub enum Script {
    Quit,
    Help,
    Edit,
    Clear,
    Filter(Vec<FilterPred>),
    Run(Target),
    Show(Target),
    Update(Target),
}

/// Mathematical model of a `Script`.
pub ghost enum ScriptModel {
    Quit,
    Help,
    Edit,
    Clear,
    Filter(Seq<FilterPredModel>),
    Run(Target),
    Show(Target),
    Update(Target),
}

impl View for Script {
    type V = ScriptModel;

    open spec fn view(&self) -> ScriptModel {
        match self {
            Script::Quit => ScriptModel::Quit,
            Script::Help => ScriptModel::Help,
            Script::Edit => ScriptModel::Edit,
            Script::Clear => ScriptModel::Clear,
            Script::Filter(ps) => ScriptModel::Filter(ps.deep_view()),
            Script::Run(t) => ScriptModel::Run(*t),
            Script::Show(t) => ScriptModel::Show(*t),
            Script::Update(t) => ScriptModel::Update(*t),
        }
    }
}

/// A parse error; each variant carries the text it complains about.
#[derive(Clone, Debug, PartialEq)]
pub enum ParseError {
    /// The input line held no token at all.
    EmptyInput,
    /// The leading token is no known command keyword.
    UnknownCommand(String),
    /// A `filter` argument uses a key other than `tag`, `status` or `name`.
    UnknownFilterKey(String),
    /// `filter` came with no predicate at all.
    MissingFilterPredicate,
    /// A target token that is neither `all` nor `sel`/`selected`.
    InvalidTarget(String),
    /// A `status:` value other than `passed`, `failed` or `unknown`.
    InvalidStatus(String),
    /// A token follows a command that takes nothing more.
    TrailingTokens(String),
}

/// Mathematical model of a `ParseError`.
pub ghost enum ParseErrorModel {
    EmptyInput,
    UnknownCommand(Seq<char>),
    UnknownFilterKey(Seq<char>),
    MissingFilterPredicate,
    InvalidTarget(Seq<char>),
    InvalidStatus(Seq<char>),
    TrailingTokens(Seq<char>),
}

impl View for ParseError {
    type V = ParseErrorModel;

    open spec fn view(&self) -> ParseErrorModel {
        match self {
            ParseError::EmptyInput => ParseErrorModel::EmptyInput,
            ParseError::UnknownCommand(t) => ParseErrorModel::UnknownCommand(t@),
            ParseError::UnknownFilterKey(t) => ParseErrorModel::UnknownFilterKey(t@),
            ParseError::MissingFilterPredicate => ParseErrorModel::MissingFilterPredicate,
            ParseError::InvalidTarget(t) => ParseErrorModel::InvalidTarget(t@),
            ParseError::InvalidStatus(t) => ParseErrorModel::InvalidStatus(t@),
            ParseError::TrailingTokens(t) => ParseErrorModel::TrailingTokens(t@),
        }
    }
}

impl ParseError {
    /// The human-readable line the session loop prints for this error.
    pub fn message(&self) -> (r: String)
        ensures
            r@ == (match self@ {
                ParseErrorModel::EmptyInput => "nothing to parse"@,
                ParseErrorModel::UnknownCommand(t) => "unknown command: "@ + t,
                ParseErrorModel::UnknownFilterKey(t) => "unknown filter key: "@ + t,
                ParseErrorModel::MissingFilterPredicate => "filter needs at least one predicate"@,
                ParseErrorModel::InvalidTarget(t) => "target must be all or sel, got: "@ + t,
                ParseErrorModel::InvalidStatus(t) =>
                    "status must be passed, failed or unknown, got: "@ + t,
                ParseErrorModel::TrailingTokens(t) => "unexpected trailing token: "@ + t,
            }),
    {
        match self {
            ParseError::EmptyInput => String::from_str("nothing to parse"),
            ParseError::UnknownCommand(t) => {
                let mut m = String::from_str("unknown command: ");
                m.append(t.as_str());
                m
            },
            ParseError::UnknownFilterKey(t) => {
                let mut m = String::from_str("unknown filter key: ");
                m.append(t.as_str());
                m
            },
            ParseError::MissingFilterPredicate => String::from_str(
                "filter needs at least one predicate",
            ),
            ParseError::InvalidTarget(t) => {
                let mut m = String::from_str("target must be all or sel, got: ");
                m.append(t.as_str());
                m
            },
            ParseError::InvalidStatus(t) => {
                let mut m = String::from_str("status must be passed, failed or unknown, got: ");
                m.append(t.as_str());
                m
            },
            ParseError::TrailingTokens(t) => {
                let mut m = String::from_str("unexpected trailing token: ");
                m.append(t.as_str());
                m
            },
        }
    }
}

/// The script a bare command maps to when nothing may follow it.
pub open spec fn spec_no_args(toks: Seq<TokenModel>, cmd: ScriptModel) -> Result<
    ScriptModel,
    ParseErrorModel,
> {
    if toks.len() > 1 {
        Err(ParseErrorModel::TrailingTokens(toks[1].text))
    } else {
        Ok(cmd)
    }
}

/// The target named by the token after the command: absent means the selected
/// snapshot, `all` means every visible one, `sel`/`selected` the selected
/// one; anything else, or more than one token, is an error.
pub open spec fn spec_target(toks: Seq<TokenModel>) -> Result<Target, ParseErrorModel> {
    if toks.len() == 1 {
        Ok(Target::Selected)
    } else if toks.len() > 2 {
        Err(ParseErrorModel::TrailingTokens(toks[2].text))
    } else {
        let w = lower_seq(toks[1].text);
        if w == "all"@ {
            Ok(Target::All)
        } else if w == "sel"@ || w == "selected"@ {
            Ok(Target::Selected)
        } else {
            Err(ParseErrorModel::InvalidTarget(toks[1].text))
        }
    }
}

/// The predicate one filter argument stands for. A quoted string is a bare
/// substring even if it holds a colon; a word with a colon is `key:value`
/// with the key (not the value) matched case-insensitively; a flag is no
/// predicate at all.
pub open spec fn spec_pred(t: TokenModel) -> Result<FilterPredModel, ParseErrorModel> {
    if t.kind == TokenKind::Flag {
        Err(ParseErrorModel::UnknownFilterKey(t.text))
    } else if t.kind == TokenKind::QuotedString {
        Ok(FilterPredModel::BySubstring(t.text))
    } else {
        let ci = char_pos(t.text, 0, ':');
        if ci >= t.text.len() {
            Ok(FilterPredModel::BySubstring(t.text))
        } else {
            let key = lower_seq(t.text.subrange(0, ci));
            let val = t.text.subrange(ci + 1, t.text.len() as int);
            if key == "tag"@ {
                Ok(FilterPredModel::ByTag(val))
            } else if key == "name"@ {
                Ok(FilterPredModel::ByName(val))
            } else if key == "status"@ {
                let sv = lower_seq(val);
                if sv == "passed"@ {
                    Ok(FilterPredModel::ByStatus(SnapshotStatus::Passed))
                } else if sv == "failed"@ {
                    Ok(FilterPredModel::ByStatus(SnapshotStatus::Failed))
                } else if sv == "unknown"@ {
                    Ok(FilterPredModel::ByStatus(SnapshotStatus::Unknown))
                } else {
                    Err(ParseErrorModel::InvalidStatus(val))
                }
            } else {
                Err(ParseErrorModel::UnknownFilterKey(t.text.subrange(0, ci)))
            }
        }
    }
}

/// The predicates of the filter arguments from position `k` on; the first
/// bad argument's error wins.
pub open spec fn spec_preds(toks: Seq<TokenModel>, k: int) -> Result<
    Seq<FilterPredModel>,
    ParseErrorModel,
>
    decreases toks.len() - k,
{
    if !(0 <= k < toks.len()) {
        Ok(Seq::<FilterPredModel>::empty())
    } else {
        match spec_pred(toks[k]) {
            Err(e) => Err(e),
            Ok(p) => match spec_preds(toks, k + 1) {
                Ok(rest) => Ok(seq![p] + rest),
                Err(e) => Err(e),
            },
        }
    }
}

/// The script a token sequence parses to. The leading word picks the command
/// from an exact, case-insensitive table: `quit`/`q`, `help`/`h`, `edit`/`e`,
/// `clear`, `filter`, `run`, `show`, `update`; nothing else abbreviates.
pub open spec fn spec_parse(toks: Seq<TokenModel>) -> Result<ScriptModel, ParseErrorModel> {
    if toks.len() == 0 {
        Err(ParseErrorModel::EmptyInput)
    } else if toks[0].kind != TokenKind::Word {
        Err(ParseErrorModel::UnknownCommand(toks[0].text))
    } else {
        let w = lower_seq(toks[0].text);
        if w == "quit"@ || w == "q"@ {
            spec_no_args(toks, ScriptModel::Quit)
        } else if w == "help"@ || w == "h"@ {
            spec_no_args(toks, ScriptModel::Help)
        } else if w == "edit"@ || w == "e"@ {
            spec_no_args(toks, ScriptModel::Edit)
        } else if w == "clear"@ {
            spec_no_args(toks, ScriptModel::Clear)
        } else if w == "filter"@ {
            if toks.len() == 1 {
                Err(ParseErrorModel::MissingFilterPredicate)
            } else {
                match spec_preds(toks, 1) {
                    Ok(ps) => Ok(ScriptModel::Filter(ps)),
                    Err(e) => Err(e),
                }
            }
        } else if w == "run"@ {
            match spec_target(toks) {
                Ok(t) => Ok(ScriptModel::Run(t)),
                Err(e) => Err(e),
            }
        } else if w == "show"@ {
            match spec_target(toks) {
                Ok(t) => Ok(ScriptModel::Show(t)),
                Err(e) => Err(e),
            }
        } else if w == "update"@ {
            match spec_target(toks) {
                Ok(t) => Ok(ScriptModel::Update(t)),
                Err(e) => Err(e),
            }
        } else {
            Err(ParseErrorModel::UnknownCommand(toks[0].text))
        }
    }
}

/// A successful parse of `filter` always carries at least one predicate: the
/// parser never returns an empty filter.
pub proof fn lemma_filter_needs_predicate(toks: Seq<TokenModel>)
    ensures
        forall|ps: Seq<FilterPredModel>|
            spec_parse(toks) == Result::<ScriptModel, ParseErrorModel>::Ok(
                ScriptModel::Filter(ps),
            ) ==> ps.len() >= 1,
{
    if toks.len() > 1 {
        lemma_preds_len(toks, 1);
    }
}

/// A successful predicate list holds one predicate per remaining token.
proof fn lemma_preds_len(toks: Seq<TokenModel>, k: int)
    requires
        0 <= k <= toks.len(),
    ensures
        forall|ps: Seq<FilterPredModel>|
            spec_preds(toks, k) == Result::<Seq<FilterPredModel>, ParseErrorModel>::Ok(ps)
                ==> ps.len() == toks.len() - k,
    decreases toks.len() - k,
{
    if k < toks.len() {
        lemma_preds_len(toks, k + 1);
    }
}

/// Parses one filter argument, exactly as `spec_pred` says.
fn parse_pred(t: &Token) -> (r: Result<FilterPred, ParseError>)
    ensures
        match r {
            Ok(p) => spec_pred(t@) == Result::<FilterPredModel, ParseErrorModel>::Ok(p@),
            Err(e) => spec_pred(t@) == Result::<FilterPredModel, ParseErrorModel>::Err(e@),
        },
{
    match t.kind {
        TokenKind::Flag => Err(ParseError::UnknownFilterKey(t.text.clone())),
        TokenKind::QuotedString => Ok(FilterPred::BySubstring(t.text.clone())),
        TokenKind::Word => {
            let len = t.text.as_str().unicode_len();
            let ci = find_char(t.text.as_str(), ':');
            if ci >= len {
                Ok(FilterPred::BySubstring(t.text.clone()))
            } else {
                let key = t.text.as_str().substring_char(0, ci);
                let val = t.text.as_str().substring_char(ci + 1, len).to_owned();
                if eq_lower(key, "tag") {
                    Ok(FilterPred::ByTag(val))
                } else if eq_lower(key, "name") {
                    Ok(FilterPred::ByName(val))
                } else if eq_lower(key, "status") {
                    if eq_lower(val.as_str(), "passed") {
                        Ok(FilterPred::ByStatus(SnapshotStatus::Passed))
                    } else if eq_lower(val.as_str(), "failed") {
                        Ok(FilterPred::ByStatus(SnapshotStatus::Failed))
                    } else if eq_lower(val.as_str(), "unknown") {
                        Ok(FilterPred::ByStatus(SnapshotStatus::Unknown))
                    } else {
                        Err(ParseError::InvalidStatus(val))
                    }
                } else {
                    Err(ParseError::UnknownFilterKey(key.to_owned()))
                }
            }
        },
    }
}

/// Parses the target that may follow a `run`, `show` or `update` keyword.
fn parse_target(tokens: &Vec<Token>) -> (r: Result<Target, ParseError>)
    requires
        tokens@.len() >= 1,
    ensures
        match r {
            Ok(t) => spec_target(tokens.deep_view()) == Result::<Target, ParseErrorModel>::Ok(t),
            Err(e) => spec_target(tokens.deep_view()) == Result::<Target, ParseErrorModel>::Err(
                e@,
            ),
        },
{
    proof {
        lemma_token_views(tokens@);
    }
    if tokens.len() == 1 {
        Ok(Target::Selected)
    } else if tokens.len() > 2 {
        Err(ParseError::TrailingTokens(tokens[2].text.clone()))
    } else {
        let w = tokens[1].text.as_str();
        if eq_lower(w, "all") {
            Ok(Target::All)
        } else if eq_lower(w, "sel") || eq_lower(w, "selected") {
            Ok(Target::Selected)
        } else {
            Err(ParseError::InvalidTarget(tokens[1].text.clone()))
        }
    }
}

/// The deep view of a token vector is its tokens' models, position by
/// position.
proof fn lemma_token_views(ts: Seq<Token>)
    ensures
        Seq::new(ts.len(), |k: int| ts[k].deep_view()).len() == ts.len(),
        forall|k: int|
            0 <= k < ts.len() ==> Seq::new(ts.len(), |q: int| ts[q].deep_view())[k] == ts[k]@,
{
}

/// Parses a token sequence into a script, exactly as `spec_parse` says: the
/// result, success or error, is a function of the tokens alone.
pub fn parse(tokens: &Vec<Token>) -> (r: Result<Script, ParseError>)
    ensures
        match r {
            Ok(sc) => spec_parse(tokens.deep_view()) == Result::<ScriptModel, ParseErrorModel>::Ok(
                sc@,
            ),
            Err(e) => spec_parse(tokens.deep_view()) == Result::<
                ScriptModel,
                ParseErrorModel,
            >::Err(e@),
        },
{
    let ghost dv = tokens.deep_view();
    proof {
        lemma_token_views(tokens@);
    }
    if tokens.len() == 0 {
        return Err(ParseError::EmptyInput);
    }
    let t0 = &tokens[0];
    if t0.kind != TokenKind::Word {
        return Err(ParseError::UnknownCommand(t0.text.clone()));
    }
    let w = t0.text.as_str();
    if eq_lower(w, "quit") || eq_lower(w, "q") {
        no_args(tokens, Script::Quit)
    } else if eq_lower(w, "help") || eq_lower(w, "h") {
        no_args(tokens, Script::Help)
    } else if eq_lower(w, "edit") || eq_lower(w, "e") {
        no_args(tokens, Script::Edit)
    } else if eq_lower(w, "clear") {
        no_args(tokens, Script::Clear)
    } else if eq_lower(w, "filter") {
        if tokens.len() == 1 {
            return Err(ParseError::MissingFilterPredicate);
        }
        let mut preds: Vec<FilterPred> = Vec::new();
        let mut k: usize = 1;
        proof {
            assert(preds.deep_view() =~= Seq::<FilterPredModel>::empty());
            if spec_preds(dv, 1) is Ok {
                assert(preds.deep_view() + spec_preds(dv, 1)->Ok_0 =~= spec_preds(dv, 1)->Ok_0);
            }
        }
        while k < tokens.len()
            invariant
                1 <= k <= tokens@.len(),
                dv == tokens.deep_view(),
                dv.len() == tokens@.len(),
                forall|q: int| 0 <= q < tokens@.len() ==> dv[q] == #[trigger] tokens@[q]@,
                match spec_preds(dv, 1) {
                    Ok(ps) => spec_parse(dv) == Result::<ScriptModel, ParseErrorModel>::Ok(
                        ScriptModel::Filter(ps),
                    ),
                    Err(e) => spec_parse(dv) == Result::<ScriptModel, ParseErrorModel>::Err(e),
                },
                match spec_preds(dv, k as int) {
                    Ok(rest) => spec_preds(dv, 1) == Result::<
                        Seq<FilterPredModel>,
                        ParseErrorModel,
                    >::Ok(preds.deep_view() + rest),
                    Err(e) => spec_preds(dv, 1) == Result::<
                        Seq<FilterPredModel>,
                        ParseErrorModel,
                    >::Err(e),
                },
            decreases tokens@.len() - k,
        {
            let ghost preds0 = preds.deep_view();
            match parse_pred(&tokens[k]) {
                Err(e) => {
                    return Err(e);
                },
                Ok(p) => {
                    let ghost pm = p@;
                    preds.push(p);
                    proof {
                        assert(preds.deep_view() =~= preds0 + seq![pm]);
                        if spec_preds(dv, k as int + 1) is Ok {
                            let rest = spec_preds(dv, k as int + 1)->Ok_0;
                            assert(preds0 + (seq![pm] + rest) =~= (preds0 + seq![pm]) + rest);
                        }
                    }
                },
            }
            k = k + 1;
        }
        proof {
            assert(spec_preds(dv, k as int) == Result::<Seq<FilterPredModel>, ParseErrorModel>::Ok(
                Seq::<FilterPredModel>::empty(),
            ));
            assert(preds.deep_view() + Seq::<FilterPredModel>::empty() =~= preds.deep_view());
        }
        Ok(Script::Filter(preds))
    } else if eq_lower(w, "run") {
        match parse_target(tokens) {
            Ok(t) => Ok(Script::Run(t)),
            Err(e) => Err(e),
        }
    } else if eq_lower(w, "show") {
        match parse_target(tokens) {
            Ok(t) => Ok(Script::Show(t)),
            Err(e) => Err(e),
        }
    } else if eq_lower(w, "update") {
        match parse_target(tokens) {
            Ok(t) => Ok(Script::Update(t)),
            Err(e) => Err(e),
        }
    } else {
        Err(ParseError::UnknownCommand(t0.text.clone()))
    }
}

/// A command that takes nothing more: any trailing token is an error.
fn no_args(tokens: &Vec<Token>, cmd: Script) -> (r: Result<Script, ParseError>)
    requires
        tokens@.len() >= 1,
    ensures
        match r {
            Ok(sc) => spec_no_args(tokens.deep_view(), cmd@) == Result::<
                ScriptModel,
                ParseErrorModel,
            >::Ok(sc@) && sc == cmd,
            Err(e) => spec_no_args(tokens.deep_view(), cmd@) == Result::<
                ScriptModel,
                ParseErrorModel,
            >::Err(e@),
        },
{
    proof {
        lemma_token_views(tokens@);
    }
    if tokens.len() > 1 {
        Err(ParseError::TrailingTokens(tokens[1].text.clone()))
    } else {
        Ok(cmd)
    }
}

} // verus!
