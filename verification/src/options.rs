//! The argument grammar: every token is either one of three mode switches or
//! a pattern, and the mode in force decides on which list a pattern lands.

use vstd::prelude::*;
use vstd::utf8::*;
use crate::text::texts;

verus! {

/// How the next pattern token will be classified.
#[derive(Clone, Copy, Debug, PartialEq, Eq, Structural)]
pub enum ParseState {
    /// Patterns go to the inclusion list. This is the initial state.
    Include,
    /// The next pattern goes to the exclusion list, the ones after it do not.
    ExcludeOnce,
    /// Patterns go to the exclusion list until the mode is switched.
    ExcludeSticky,
}

/// What a token turned out to be.
#[derive(Clone, Copy, Debug, PartialEq, Eq, Structural)]
pub enum TokenKind {
    /// One of `-v`, `-V`, `-G`; contributes no pattern.
    Switch,
    /// A pattern that retained lines must contain.
    IncludePattern,
    /// A pattern that retained lines must not contain.
    ExcludePattern,
}

/// The token `-v`: exclude the next pattern only.
pub open spec fn once_switch() -> Seq<char> {
    seq!['-', 'v']
}

/// The token `-V`: exclude every pattern from here on.
pub open spec fn sticky_switch() -> Seq<char> {
    seq!['-', 'V']
}

/// The token `-G`: back to inclusion.
pub open spec fn cancel_switch() -> Seq<char> {
    seq!['-', 'G']
}

/// The state that a switch token sets, `None` for a pattern. Only the three
/// exact tokens are switches; anything else, `-x` or `-vV` say, is a pattern.
pub open spec fn switch_target(token: Seq<char>) -> Option<ParseState> {
    if token == once_switch() {
        Some(ParseState::ExcludeOnce)
    } else if token == sticky_switch() {
        Some(ParseState::ExcludeSticky)
    } else if token == cancel_switch() {
        Some(ParseState::Include)
    } else {
        None
    }
}

impl ParseState {
    /// The state after `token` was read in state `self`. A switch sets its
    /// state whatever the state was, so the last of several switches in a
    /// row wins and `-G` also cancels a pending `-v`. A pattern uses up a
    /// one-shot exclusion and leaves the other two states alone.
    pub open spec fn after(self, token: Seq<char>) -> ParseState {
        match switch_target(token) {
            Some(target) => target,
            None => match self {
                ParseState::ExcludeSticky => ParseState::ExcludeSticky,
                _ => ParseState::Include,
            },
        }
    }

    /// What `token` is when read in state `self`.
    pub open spec fn kind_of(self, token: Seq<char>) -> TokenKind {
        if switch_target(token).is_some() {
            TokenKind::Switch
        } else if self == ParseState::Include {
            TokenKind::IncludePattern
        } else {
            TokenKind::ExcludePattern
        }
    }
}

/// The state in force just before token `i` is read, the tokens before it
/// having been read in order from the initial state.
pub open spec fn state_before(args: Seq<Seq<char>>, i: int) -> ParseState
    decreases i,
{
    if i <= 0 {
        ParseState::Include
    } else {
        state_before(args, i - 1).after(args[i - 1])
    }
}

/// What token `i` of `args` is.
pub open spec fn token_kind(args: Seq<Seq<char>>, i: int) -> TokenKind {
    state_before(args, i).kind_of(args[i])
}

/// The tokens of kind `kind` among the first `n` of `args`, in their order.
pub open spec fn patterns_of(args: Seq<Seq<char>>, kind: TokenKind, n: int) -> Seq<Seq<char>>
    decreases n,
{
    if n <= 0 {
        Seq::empty()
    } else {
        let earlier = patterns_of(args, kind, n - 1);
        if token_kind(args, n - 1) == kind {
            earlier.push(args[n - 1])
        } else {
            earlier
        }
    }
}

/// The inclusion list that `args` spells out.
pub open spec fn inclusion_list(args: Seq<Seq<char>>) -> Seq<Seq<char>> {
    patterns_of(args, TokenKind::IncludePattern, args.len() as int)
}

/// The exclusion list that `args` spells out.
pub open spec fn exclusion_list(args: Seq<Seq<char>>) -> Seq<Seq<char>> {
    patterns_of(args, TokenKind::ExcludePattern, args.len() as int)
}

/// A dash followed by an ASCII letter is encoded as its two bytes, and no
/// other text has that encoding.
proof fn lemma_dash_letter(token: Seq<char>, letter: char)
    requires
        letter <= '\u{7f}',
    ensures
        (encode_utf8(token) == seq![0x2du8, letter as u8]) <==> (token == seq!['-', letter]),
{
    let flag = seq!['-', letter];
    is_ascii_chars_encode_utf8(flag);
    assert(encode_utf8(flag) =~= seq![0x2du8, letter as u8]);
    encode_utf8_decode_utf8(flag);
    encode_utf8_decode_utf8(token);
}

/// Recognises a switch token and says which state it sets.
pub fn read_switch(token: &str) -> (target: Option<ParseState>)
    ensures
        target == switch_target(token@),
{
    let bytes = token.as_bytes();
    proof {
        lemma_dash_letter(token@, 'v');
        lemma_dash_letter(token@, 'V');
        lemma_dash_letter(token@, 'G');
    }
    if bytes.len() != 2 || bytes[0] != 0x2d {
        return None;
    }
    let letter: u8 = bytes[1];
    assert(bytes@ =~= seq![0x2du8, letter]);
    if letter == 0x76 {
        Some(ParseState::ExcludeOnce)
    } else if letter == 0x56 {
        Some(ParseState::ExcludeSticky)
    } else if letter == 0x47 {
        Some(ParseState::Include)
    } else {
        None
    }
}

impl ParseState {
    /// Reads one token: the state that follows, and what the token was.
    pub fn advance(self, token: &str) -> (step: (ParseState, TokenKind))
        ensures
            step.0 == self.after(token@),
            step.1 == self.kind_of(token@),
    {
        match read_switch(token) {
            Some(target) => (target, TokenKind::Switch),
            None => match self {
                ParseState::Include => (ParseState::Include, TokenKind::IncludePattern),
                ParseState::ExcludeOnce => (ParseState::Include, TokenKind::ExcludePattern),
                ParseState::ExcludeSticky => (ParseState::ExcludeSticky, TokenKind::ExcludePattern),
            },
        }
    }
}

/// Sorts the arguments into the inclusion list, returned first, and the
/// exclusion list, returned second. Every argument is accepted: switches are
/// dropped, each pattern goes verbatim to one of the two lists, and both
/// lists keep the order of the arguments.
pub fn separate_options(args: Vec<String>) -> (lists: Vec<Vec<String>>)
    ensures
        lists@.len() == 2,
        texts(lists@[0]@) == inclusion_list(texts(args@)),
        texts(lists@[1]@) == exclusion_list(texts(args@)),
{
    let ghost tokens = texts(args@);
    let mut state = ParseState::Include;
    let mut includes: Vec<String> = Vec::new();
    let mut excludes: Vec<String> = Vec::new();
    let mut i: usize = 0;
    while i < args.len()
        invariant
            i <= args@.len(),
            tokens == texts(args@),
            state == state_before(tokens, i as int),
            texts(includes@) == patterns_of(tokens, TokenKind::IncludePattern, i as int),
            texts(excludes@) == patterns_of(tokens, TokenKind::ExcludePattern, i as int),
        decreases args@.len() - i,
    {
        let token: &String = &args[i];
        let (next, kind) = state.advance(token.as_str());
        match kind {
            TokenKind::Switch => {},
            TokenKind::IncludePattern => {
                includes.push(token.clone());
            },
            TokenKind::ExcludePattern => {
                excludes.push(token.clone());
            },
        }
        state = next;
        i += 1;
    }
    vec![includes, excludes]
}

/// The three switch tokens are distinct, and each sets its own state.
pub proof fn lemma_switch_targets()
    ensures
        switch_target(once_switch()) == Some(ParseState::ExcludeOnce),
        switch_target(sticky_switch()) == Some(ParseState::ExcludeSticky),
        switch_target(cancel_switch()) == Some(ParseState::Include),
{
}

/// A run of patterns leaves the inclusion state and the sticky exclusion
/// state as they are: if one of the two is in force before token `from` and
/// no token from `from` up to `to` is a switch, it is in force before `to`.
pub proof fn lemma_state_persists(args: Seq<Seq<char>>, from: int, to: int)
    requires
        0 <= from <= to <= args.len(),
        state_before(args, from) != ParseState::ExcludeOnce,
        forall|k: int| from <= k < to ==> switch_target(#[trigger] args[k]).is_none(),
    ensures
        state_before(args, to) == state_before(args, from),
    decreases to - from,
{
    if from < to {
        lemma_state_persists(args, from, to - 1);
    }
}

/// `-G` restores inclusion: a pattern that follows a `-G` with no switch in
/// between is an inclusion pattern, whatever stood before the `-G`, a `-V`
/// too.
pub proof fn lemma_cancel_restores_inclusion(args: Seq<Seq<char>>, g: int, j: int)
    requires
        0 <= g < j < args.len(),
        args[g] == cancel_switch(),
        forall|k: int| g < k <= j ==> switch_target(#[trigger] args[k]).is_none(),
    ensures
        token_kind(args, j) == TokenKind::IncludePattern,
{
    lemma_switch_targets();
    lemma_state_persists(args, g + 1, j);
}

/// `-V` is sticky: every pattern that follows a `-V` with no switch in
/// between is an exclusion pattern.
pub proof fn lemma_sticky_excludes(args: Seq<Seq<char>>, v: int, j: int)
    requires
        0 <= v < j < args.len(),
        args[v] == sticky_switch(),
        forall|k: int| v < k <= j ==> switch_target(#[trigger] args[k]).is_none(),
    ensures
        token_kind(args, j) == TokenKind::ExcludePattern,
{
    lemma_switch_targets();
    lemma_state_persists(args, v + 1, j);
}

/// `-v` is one-shot: the pattern right after it is an exclusion pattern, and
/// a pattern right after that one is an inclusion pattern again, whatever
/// stood before the `-v`.
pub proof fn lemma_once_is_one_shot(args: Seq<Seq<char>>, i: int)
    requires
        0 <= i,
        i + 2 < args.len(),
        args[i] == once_switch(),
        switch_target(args[i + 1]).is_none(),
        switch_target(args[i + 2]).is_none(),
    ensures
        token_kind(args, i + 1) == TokenKind::ExcludePattern,
        token_kind(args, i + 2) == TokenKind::IncludePattern,
{
    lemma_switch_targets();
}

/// Every token is counted once: the switches, the inclusion patterns and
/// the exclusion patterns among the first `n` tokens are `n` together.
pub proof fn lemma_tokens_partitioned(args: Seq<Seq<char>>, n: int)
    requires
        0 <= n <= args.len(),
    ensures
        patterns_of(args, TokenKind::Switch, n).len() + patterns_of(
            args,
            TokenKind::IncludePattern,
            n,
        ).len() + patterns_of(args, TokenKind::ExcludePattern, n).len() == n,
    decreases n,
{
    if n > 0 {
        lemma_tokens_partitioned(args, n - 1);
    }
}

/// What is on a list: a text is among the tokens of kind `kind` of the
/// first `n` arguments exactly when one of those arguments is that text and
/// is of that kind. Patterns are listed verbatim, and nothing else is.
pub proof fn lemma_listed_tokens(args: Seq<Seq<char>>, kind: TokenKind, n: int, text: Seq<char>)
    requires
        0 <= n <= args.len(),
    ensures
        patterns_of(args, kind, n).contains(text) <==> exists|i: int|
            0 <= i < n && #[trigger] token_kind(args, i) == kind && args[i] == text,
    decreases n,
{
    if n > 0 {
        lemma_listed_tokens(args, kind, n - 1, text);
        let earlier = patterns_of(args, kind, n - 1);
        let listed = patterns_of(args, kind, n);
        if earlier.contains(text) {
            let k = choose|k: int| 0 <= k < earlier.len() && earlier[k] == text;
            assert(listed[k] == text);
        }
        if token_kind(args, n - 1) == kind && args[n - 1] == text {
            assert(listed[listed.len() - 1] == text);
        }
        if listed.contains(text) && !earlier.contains(text) {
            let k = choose|k: int| 0 <= k < listed.len() && listed[k] == text;
            assert(k < earlier.len() ==> earlier[k] == text);
            assert(token_kind(args, n - 1) == kind && args[n - 1] == text);
        }
    }
}

} // verus!
