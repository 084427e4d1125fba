//! The tokenizer: a compiled matcher for a list of token types, and the scan
//! that turns a source into tokens.

use crate::engine::{capture_spans, compile, compiled_from, group_span, regex_compiles};
use crate::errors::{
    configuration_error, configuration_error_message, syntax_error, syntax_error_message, Error,
    ErrorView,
};
use crate::pattern::{
    alternatives, composite_pattern, config_fault, first_invalid_override, group_table,
    group_total, names, overrides,
};
use crate::scan::{
    after, first_participating, lemma_first_participating, lemma_step_of_fits, step_of, Scan,
    StepView, TokenView, TokenizerView,
};
use crate::text::{byte_len, is_boundary, lemma_text_between_shift, slice, suffix, text_from};
use vstd::hash_map::StringHashMap;
use vstd::prelude::*;
use vstd::string::*;

verus! {

/// A compiled matcher for an ordered list of token types. It is built once
/// and never changes; a scan only reads it.
pub struct Tokenizer<'a> {
    /// The names of the token types, in order of precedence.
    token_types: Vec<&'a str>,
    /// The composite expression, compiled.
    regex: regex::Regex,
    /// For each token type, the capture group of the composite expression
    /// that stands for it.
    groups: Vec<usize>,
}

/// One lexical unit of a source. The value borrows from the source, and the
/// offsets count bytes in it.
#[derive(Debug, Eq, PartialEq)]
pub struct Token<'a, 'v> {
    /// The name of the token type.
    pub token_type: &'a str,
    /// The text that the token type's pattern captured.
    pub value: &'v str,
    /// The byte offset at which the match starts.
    pub start: usize,
    /// The byte offset just behind the match.
    pub end: usize,
}

/// What one application of the matcher found at the head of a text. Offsets
/// count bytes from the head.
#[derive(Debug, Eq, PartialEq)]
pub enum Step {
    /// Nothing that the scanner can use.
    NoMatch,
    /// The ignore pattern matched the first `len` bytes.
    Ignored { len: usize },
    /// The token type at `index` matched the first `len` bytes, and its
    /// pattern captured the bytes `start..end`.
    Matched { index: usize, len: usize, start: usize, end: usize },
}

impl<'a, 'v> View for Token<'a, 'v> {
    type V = TokenView;

    open spec fn view(&self) -> TokenView {
        TokenView {
            token_type: self.token_type@,
            value: self.value@,
            start: self.start as int,
            end: self.end as int,
        }
    }
}

/// Capture group indices as the model sees them.
pub open spec fn group_indices(groups: Seq<usize>) -> Seq<int> {
    groups.map_values(|group: usize| group as int)
}

/// The tokens of a list as the model sees them.
pub open spec fn token_views<'a, 'v>(tokens: Seq<Token<'a, 'v>>) -> Seq<TokenView> {
    tokens.map_values(|token: Token<'a, 'v>| token@)
}

impl View for Step {
    type V = StepView;

    open spec fn view(&self) -> StepView {
        match self {
            Step::NoMatch => StepView::NoMatch,
            Step::Ignored { len } => StepView::Ignored { len: *len as int },
            Step::Matched { index, len, start, end } => StepView::Matched {
                index: *index as int,
                len: *len as int,
                start: *start as int,
                end: *end as int,
            },
        }
    }
}

impl<'a> View for Tokenizer<'a> {
    type V = TokenizerView;

    closed spec fn view(&self) -> TokenizerView {
        TokenizerView {
            pattern: compiled_from(&self.regex).unwrap(),
            types: names(self.token_types@),
            groups: group_indices(self.groups@),
        }
    }
}

impl<'a> Tokenizer<'a> {
    /// The matcher was compiled from a pattern text in the engine's default
    /// way, so that what it matches is a matter of that text alone, and
    /// every token type has its capture group.
    #[verifier::type_invariant]
    closed spec fn well_formed(self) -> bool {
        &&& compiled_from(&self.regex) is Some
        &&& self.groups.len() == self.token_types.len()
    }

    /// Compiles a tokenizer for the token types `token_types`, in their
    /// order of precedence. A token type whose name is a key of `patterns`
    /// matches that pattern, any other matches its name as it is written.
    /// Text that matches `ignore` is skipped between tokens.
    ///
    /// Fails with a configuration error that names the first pattern at
    /// fault: the ignore pattern or an explicit pattern that the engine does
    /// not accept, or the composite expression, where the engine does not
    /// accept it, where its capture groups are not those of its parts, or
    /// where it matches the empty text.
    pub fn new(ignore: &str, patterns: StringHashMap<String>, token_types: Vec<&'a str>) -> (r:
        Result<Tokenizer<'a>, Error>)
        ensures
            match config_fault(ignore@, overrides(patterns@), names(token_types@)) {
                None => r matches Ok(tokenizer) && tokenizer@ == (TokenizerView {
                    pattern: composite_pattern(
                        ignore@,
                        overrides(patterns@),
                        names(token_types@),
                    ),
                    types: names(token_types@),
                    groups: group_table(ignore@, overrides(patterns@), names(token_types@)),
                }),
                Some(pattern) => r matches Err(e) && e@ == ErrorView::ConfigurationError(
                    configuration_error_message(pattern),
                ),
            },
    {
        let ghost explicit = overrides(patterns@);
        let ghost all = names(token_types@);
        let own = match compile(ignore) {
            Some(regex) => regex.captures_len(),
            None => {
                return Err(configuration_error(ignore));
            },
        };
        // The capture group of the next alternative, for as long as the
        // count fits a `usize`.
        let mut next_group: Option<usize> = own.checked_add(1);
        let mut groups: Vec<usize> = Vec::new();
        let mut i: usize = 0;
        while i < token_types.len()
            invariant
                i <= token_types.len(),
                explicit == overrides(patterns@),
                all == names(token_types@),
                regex_compiles(ignore@),
                first_invalid_override(explicit, all, i as nat) == first_invalid_override(
                    explicit,
                    all,
                    0,
                ),
                match next_group {
                    Some(group) => {
                        &&& group == group_total(ignore@, explicit, all.take(i as int))
                        &&& group_indices(groups@) =~= group_table(
                            ignore@,
                            explicit,
                            all.take(i as int),
                        )
                    },
                    None => group_total(ignore@, explicit, all.take(i as int)) > usize::MAX,
                },
            decreases token_types.len() - i,
        {
            let own = match patterns.get(token_types[i]) {
                Some(pattern) => match compile(pattern.as_str()) {
                    Some(regex) => regex.captures_len(),
                    None => {
                        return Err(configuration_error(pattern.as_str()));
                    },
                },
                None => 1,
            };
            let ghost before = all.take(i as int);
            let ghost now = all.take(i + 1);
            let ghost table = group_indices(groups@);
            proof {
                assert(now.drop_last() =~= before);
            }
            if let Some(group) = next_group {
                groups.push(group);
                next_group = group.checked_add(own);
                proof {
                    assert forall|k: int| 0 <= k <= i implies group_indices(groups@)[k]
                        == group_table(ignore@, explicit, now)[k] by {
                        assert(now.take(k) =~= all.take(k));
                        if k < i {
                            assert(before.take(k) =~= all.take(k));
                            assert(table[k] == group_table(ignore@, explicit, before)[k]);
                        }
                    }
                }
            }
            i += 1;
        }
        assert(all.take(i as int) =~= all);
        let re = Self::build_regex_string(ignore, &patterns, token_types.as_slice());
        match compile(re.as_str()) {
            None => Err(configuration_error(re.as_str())),
            Some(regex) => {
                proof {
                    reveal_strlit("");
                    assert(""@ =~= Seq::<char>::empty());
                }
                let count = regex.captures_len();
                let counted = match next_group {
                    Some(total) => total == count,
                    None => false,
                };
                if !counted || regex.captures("").is_some() {
                    Err(configuration_error(re.as_str()))
                } else {
                    Ok(Tokenizer { token_types, regex, groups })
                }
            },
        }
    }

    /// Writes the composite expression for a configuration.
    pub fn build_regex_string(
        ignore: &str,
        patterns: &StringHashMap<String>,
        token_types: &[&str],
    ) -> (re: String)
        ensures
            re@ == composite_pattern(ignore@, overrides(patterns@), names(token_types@)),
    {
        let ghost explicit = overrides(patterns@);
        let ghost all = names(token_types@);
        let mut re = String::new();
        re.append("^(?:(");
        re.append(ignore);
        re.append(")");
        let mut i: usize = 0;
        while i < token_types.len()
            invariant
                i <= token_types.len(),
                explicit == overrides(patterns@),
                all == names(token_types@),
                re@ =~= "^(?:("@ + ignore@ + ")"@ + alternatives(explicit, all.take(i as int)),
            decreases token_types.len() - i,
        {
            let name = token_types[i];
            re.append("|(");
            match patterns.get(name) {
                Some(pattern) => {
                    re.append(pattern.as_str());
                },
                None => {
                    let literal = regex::escape(name);
                    re.append(literal.as_str());
                },
            }
            re.append(")");
            assert(all.take(i + 1).drop_last() =~= all.take(i as int));
            i += 1;
        }
        assert(all.take(i as int) =~= all);
        re.append(")");
        re
    }

    /// Scans `source` from `offset` to its end and returns the tokens in
    /// the order in which they are met. Where some input is matched by
    /// nothing, the scan fails with the first such place, and the tokens
    /// found before it are dropped.
    pub fn tokenize<'v>(&'a self, source: &'v str, offset: usize) -> (r: Result<
        Vec<Token<'a, 'v>>,
        Error,
    >)
        requires
            is_boundary(source@, offset as int),
        ensures
            match self@.tokens_from(source@, offset as int) {
                Ok(tokens) => r matches Ok(found) && token_views(found@) == tokens,
                Err(at) => r matches Err(e) && e@ == ErrorView::SyntaxError(
                    syntax_error_message(source@, text_from(source@, at)),
                ),
            },
    {
        let mut last_end = offset;
        let mut tokens: Vec<Token<'a, 'v>> = Vec::new();
        loop
            invariant
                is_boundary(source@, last_end as int),
                self@.tokens_from(source@, offset as int) == after(
                    token_views(tokens@),
                    self@.tokens_from(source@, last_end as int),
                ),
            decreases byte_len(source@) - last_end,
        {
            proof {
                self@.lemma_scan_advances(source@, last_end as int);
            }
            let ghost before = token_views(tokens@);
            match self.next(source, last_end) {
                Err(e) => {
                    return Err(e);
                },
                Ok(None) => {
                    return Ok(tokens);
                },
                Ok(Some(token)) => {
                    last_end = token.end;
                    let ghost found = token@;
                    tokens.push(token);
                    proof {
                        let rest = self@.tokens_from(source@, last_end as int);
                        assert(token_views(tokens@) =~= before.push(found));
                        match rest {
                            Ok(more) => {
                                assert(before + (seq![found] + more) =~= before.push(found) + more);
                            },
                            Err(_) => {},
                        }
                    }
                },
            }
        }
    }

    /// The index of the first capture group, from `index` on, that took part
    /// in the match.
    pub fn index_of_not_undefined(captures: &regex::Captures, index: usize) -> (found: Option<
        usize,
    >)
        ensures
            match found {
                Some(i) => {
                    &&& first_participating(capture_spans(captures), index as nat) == Some(i as int)
                    &&& index <= i < capture_spans(captures).len()
                    &&& capture_spans(captures)[i as int] is Some
                    &&& forall|j: int| index <= j < i ==> capture_spans(captures)[j] is None
                },
                None => {
                    &&& first_participating(capture_spans(captures), index as nat) is None
                    &&& forall|j: int|
                        index <= j < capture_spans(captures).len() ==> capture_spans(
                            captures,
                        )[j] is None
                },
            },
    {
        let ghost spans = capture_spans(captures);
        let count = captures.len();
        let mut i: usize = index;
        while i < count
            invariant
                index <= i,
                count == spans.len(),
                spans == capture_spans(captures),
                first_participating(spans, i as nat) == first_participating(spans, index as nat),
            decreases count - i,
        {
            if group_span(captures, i).is_some() {
                proof {
                    lemma_first_participating(spans, index as nat);
                }
                return Some(i);
            }
            i += 1;
        }
        proof {
            lemma_first_participating(spans, index as nat);
        }
        None
    }

    /// The first position in `groups` that holds `group`.
    pub fn group_position(groups: &[usize], group: usize) -> (found: Option<usize>)
        ensures
            match found {
                Some(k) => group_indices(groups@).index_of_first(group as int) == Some(k as int),
                None => group_indices(groups@).index_of_first(group as int) is None,
            },
    {
        let ghost table = group_indices(groups@);
        let mut k: usize = 0;
        while k < groups.len()
            invariant
                k <= groups.len(),
                table == group_indices(groups@),
                forall|j: int| 0 <= j < k ==> table[j] != group,
            decreases groups.len() - k,
        {
            if groups[k] == group {
                proof {
                    table.index_of_first_ensures(group as int);
                    assert(table[k as int] == group);
                }
                return Some(k);
            }
            k += 1;
        }
        proof {
            table.index_of_first_ensures(group as int);
        }
        None
    }

    /// Reads one match of the matcher, given the capture group of each token
    /// type: was text ignored, was a token found, and where.
    pub fn classify(captures: &regex::Captures, groups: &[usize]) -> (step: Step)
        ensures
            step@ == step_of(capture_spans(captures), group_indices(groups@)),
    {
        match group_span(captures, 0) {
            None => Step::NoMatch,
            Some((from, len)) => match Self::index_of_not_undefined(captures, 1) {
                None => Step::NoMatch,
                Some(i) => {
                    if from != 0 {
                        Step::NoMatch
                    } else if i == 1 {
                        Step::Ignored { len }
                    } else {
                        match Self::group_position(groups, i) {
                            Some(index) => {
                                let (start, end) = group_span(captures, i).unwrap();
                                Step::Matched { index, len, start, end }
                            },
                            None => Step::NoMatch,
                        }
                    }
                },
            },
        }
    }

    /// Returns the next token at or after `offset`, or `None` if the rest of
    /// the source holds no more tokens. The matcher is applied at the cursor
    /// only, never further along; while it finds ignored text the cursor
    /// moves behind it.
    ///
    /// Fails with a syntax error where input is left and the matcher finds
    /// nothing at the cursor that consumes any of it.
    pub fn next<'v>(&'a self, source: &'v str, offset: usize) -> (r: Result<
        Option<Token<'a, 'v>>,
        Error,
    >)
        requires
            is_boundary(source@, offset as int),
        ensures
            match self@.scan_from(source@, offset as int) {
                Scan::End => r matches Ok(None),
                Scan::Found(token) => r matches Ok(Some(found)) && found@ == token,
                Scan::Fail { at } => r matches Err(e) && e@ == ErrorView::SyntaxError(
                    syntax_error_message(source@, text_from(source@, at)),
                ),
            },
    {
        let total = source.as_bytes().len();
        let mut cursor = offset;
        loop
            invariant
                total == byte_len(source@),
                is_boundary(source@, cursor as int),
                self@.scan_from(source@, cursor as int) == self@.scan_from(source@, offset as int),
            decreases total - cursor,
        {
            proof {
                use_type_invariant(self);
                self@.lemma_step_fits(source@, cursor as int);
            }
            if cursor == total {
                return Ok(None);
            }
            let rest = suffix(source, cursor);
            let step = match self.regex.captures(rest) {
                Some(captures) => {
                    proof {
                        lemma_step_of_fits(capture_spans(&captures), self@.groups, rest@);
                    }
                    Self::classify(&captures, self.groups.as_slice())
                },
                None => Step::NoMatch,
            };
            match step {
                Step::NoMatch => {
                    return Err(syntax_error(source, rest));
                },
                Step::Ignored { len } => {
                    if len == 0 {
                        return Err(syntax_error(source, rest));
                    }
                    cursor += len;
                },
                Step::Matched { index, len, start, end } => {
                    if len == 0 {
                        return Err(syntax_error(source, rest));
                    }
                    proof {
                        lemma_text_between_shift(
                            source@,
                            cursor as int,
                            start as int,
                            end as int,
                        );
                    }
                    return Ok(
                        Some(
                            Token {
                                token_type: self.token_types[index],
                                value: slice(rest, start, end),
                                start: cursor,
                                end: cursor + len,
                            },
                        ),
                    );
                },
            }
        }
    }
}

} // verus!
