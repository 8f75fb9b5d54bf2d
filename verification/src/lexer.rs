use vstd::prelude::*;
use vstd::string::StringSliceAdditionalSpecFns;
use vstd::utf8::{decode_utf8, encode_utf8, is_char_boundary};
use regex::Regex;
use crate::class::location::Location;
use crate::class::rules::{token_regexes, token_rules, TokenRule};
use crate::class::token::{token_views, Token, TokenType, TokenView};
use crate::compiler::CompilerError;

verus! {

/// Where the regular expression `pattern` first matches in `text`: the
/// offsets, in bytes, of the start of the match and of its end. None where
/// it matches nowhere, and where `pattern` is no regular expression.
pub uninterp spec fn pattern_match(pattern: Seq<char>, text: Seq<char>) -> Option<(usize, usize)>;

/// Finds the first match of a regular expression in a text, with
/// `regex::Regex::new` on the pattern and `regex::Regex::find` on the text.
///
/// Not proved: the contract is taken from what the regex crate documents.
/// The result depends on the pattern and the text alone, and has the name
/// `pattern_match`. The offsets of a match lie in the text, the start not
/// behind the end, each between two characters of the text. Nothing is found
/// where the pattern is no regular expression.
#[verifier::external_body]
fn find_match(pattern: &str, text: &str) -> (found: Option<(usize, usize)>)
    ensures
        found == pattern_match(pattern@, text@),
        found matches Some((start, end)) ==> start <= end <= text.spec_bytes().len()
            && is_char_boundary(text.spec_bytes(), start as int) && is_char_boundary(
            text.spec_bytes(),
            end as int,
        ),
{
    match Regex::new(pattern) {
        Ok(regex) => regex.find(text).map(|found| (found.start(), found.end())),
        Err(_) => None,
    }
}

/// The first rule from `from` on whose pattern matches in `text` with a
/// match that ends behind the start of the text: the index of the rule and
/// the offsets of the match.
pub open spec fn first_match(rules: Seq<TokenRule>, text: Seq<char>, from: int) -> Option<
    (int, usize, usize),
>
    decreases rules.len() - from,
{
    if from < 0 || from >= rules.len() {
        None
    } else {
        match pattern_match(rules[from].pattern@, text) {
            Some((start, end)) => if end > 0 {
                Some((from, start, end))
            } else {
                first_match(rules, text, from + 1)
            },
            None => first_match(rules, text, from + 1),
        }
    }
}

/// The kind of the first rule from `from` on whose pattern matches in `text`.
pub open spec fn token_type_of(rules: Seq<TokenRule>, text: Seq<char>, from: int) -> Option<
    TokenType,
>
    decreases rules.len() - from,
{
    if from < 0 || from >= rules.len() {
        None
    } else if pattern_match(rules[from].pattern@, text) is Some {
        Some(rules[from].typ)
    } else {
        token_type_of(rules, text, from + 1)
    }
}

/// Number of line feeds among the bytes.
pub open spec fn newline_count(bytes: Seq<u8>) -> int
    decreases bytes.len(),
{
    if bytes.len() == 0 {
        0
    } else {
        newline_count(bytes.drop_last()) + if bytes.last() == 10u8 {
            1int
        } else {
            0int
        }
    }
}

/// Index of the last line feed among the bytes; zero if there is none.
pub open spec fn last_newline(bytes: Seq<u8>) -> int
    decreases bytes.len(),
{
    if bytes.len() == 0 {
        0
    } else if bytes.last() == 10u8 {
        bytes.len() - 1
    } else {
        last_newline(bytes.drop_last())
    }
}

/// The row behind a text that starts in `row`.
pub open spec fn row_after(row: int, bytes: Seq<u8>) -> int {
    row + newline_count(bytes)
}

/// The column behind a text that starts in `column`: counted from the last
/// line feed of the text if it has one.
pub open spec fn column_after(column: int, bytes: Seq<u8>) -> int {
    if newline_count(bytes) > 0 {
        bytes.len() - last_newline(bytes)
    } else {
        column + bytes.len()
    }
}

/// The tokens of `text`, which starts at the given row and column, behind
/// those in `found`, or the place of the first part of the text that
/// matches no rule. The
/// rule that matches first gives the text of the token, and the first rule
/// that matches that text gives its kind. Text of a rule for no token is
/// passed over.
pub open spec fn tokens_of(
    rules: Seq<TokenRule>,
    text: Seq<char>,
    file: Option<String>,
    row: int,
    column: int,
    found: Seq<TokenView>,
) -> Result<Seq<TokenView>, Location>
    decreases encode_utf8(text).len(),
{
    let bytes = encode_utf8(text);
    let here = Location { row: row as usize, column: column as usize, file };
    if bytes.len() == 0 {
        Ok(found)
    } else {
        match first_match(rules, text, 0) {
            None => Err(here),
            Some((rule, start, end)) => {
                let rest = decode_utf8(bytes.skip(end as int));
                let matched = bytes.subrange(start as int, end as int);
                let next_row = row_after(row, matched);
                let next_column = column_after(column, matched);
                if encode_utf8(rest).len() >= bytes.len() {
                    // Not taken by a match that lies in the text: it ends behind the start.
                    Err(here)
                } else if rules[rule].typ is Skipped {
                    tokens_of(rules, rest, file, next_row, next_column, found)
                } else {
                    match token_type_of(rules, decode_utf8(matched), 0) {
                        None => Err(here),
                        Some(typ) => tokens_of(
                            rules,
                            rest,
                            file,
                            next_row,
                            next_column,
                            found.push(
                                TokenView {
                                    value: decode_utf8(matched),
                                    typ,
                                    start_loc: here,
                                    end_loc: Location {
                                        row: next_row as usize,
                                        column: next_column as usize,
                                        file,
                                    },
                                },
                            ),
                        ),
                    }
                }
            },
        }
    }
}

/// The tokens of a source text from the file `file`, by the rules for
/// tokens, or the place of the first part of it that matches no rule. A
/// text too long for its rows and columns to be counted is refused at its start.
pub open spec fn scanned(code: Seq<char>, file: Option<String>) -> Result<
    Seq<TokenView>,
    Location,
> {
    if encode_utf8(code).len() >= usize::MAX {
        Err(Location { row: 1, column: 1, file })
    } else {
        tokens_of(token_rules(), code, file, 1, 1, Seq::empty())
    }
}

/// Finds the first rule whose pattern matches in the text with a match
/// that ends behind the start of the text.
fn first_rule(rules: &Vec<TokenRule>, text: &str) -> (found: Option<(usize, usize, usize)>)
    ensures
        match found {
            Some((rule, start, end)) => first_match(rules@, text@, 0) == Some(
                (rule as int, start, end),
            ) && rule < rules.len() && start <= end <= text.spec_bytes().len() && 0 < end
                && is_char_boundary(text.spec_bytes(), start as int) && is_char_boundary(
                text.spec_bytes(),
                end as int,
            ),
            None => first_match(rules@, text@, 0) is None,
        },
{
    let mut at: usize = 0;
    while at < rules.len()
        invariant
            at <= rules.len(),
            first_match(rules@, text@, 0) == first_match(rules@, text@, at as int),
        decreases rules.len() - at,
    {
        match find_match(rules[at].pattern, text) {
            Some((start, end)) => {
                if end > 0 {
                    return Some((at, start, end));
                }
            },
            None => {},
        }
        at += 1;
    }
    None
}

/// Finds the kind of the first rule whose pattern matches in the text.
fn type_in(rules: &Vec<TokenRule>, text: &str) -> (typ: Option<TokenType>)
    ensures
        typ == token_type_of(rules@, text@, 0),
{
    let mut at: usize = 0;
    while at < rules.len()
        invariant
            at <= rules.len(),
            token_type_of(rules@, text@, 0) == token_type_of(rules@, text@, at as int),
        decreases rules.len() - at,
    {
        if find_match(rules[at].pattern, text).is_some() {
            return Some(rules[at].typ.clone());
        }
        at += 1;
    }
    None
}

/// Whether some rule for tokens matches in the text.
pub fn has_token_type(token: &str) -> (known: bool)
    ensures
        known == token_type_of(token_rules(), token@, 0) is Some,
{
    let rules = token_regexes();
    type_in(&rules, token).is_some()
}

/// The kind of the first rule for tokens that matches in the text.
pub fn get_token_type(token: &str) -> (typ: TokenType)
    requires
        token_type_of(token_rules(), token@, 0) is Some,
    ensures
        Some(typ) == token_type_of(token_rules(), token@, 0),
{
    let rules = token_regexes();
    match type_in(&rules, token) {
        Some(typ) => typ,
        None => TokenType::Skipped,
    }
}

/// The kind of the first rule for tokens that matches in the text, if one does.
pub fn find_token_type(token: &str) -> (typ: Option<TokenType>)
    ensures
        typ == token_type_of(token_rules(), token@, 0),
{
    if has_token_type(token) {
        Some(get_token_type(token))
    } else {
        None
    }
}

/// The length of a text in bytes.
pub fn byte_len(text: &str) -> (length: usize)
    ensures
        length == text.spec_bytes().len(),
{
    text.as_bytes().len()
}

/// Counts the line feeds of a text and finds the last of them.
fn count_newlines(bytes: &[u8]) -> (counted: (usize, usize))
    ensures
        counted.0 == newline_count(bytes@),
        counted.1 == last_newline(bytes@),
        counted.0 <= bytes.len(),
        counted.1 <= bytes.len(),
        counted.0 > 0 ==> counted.1 < bytes.len(),
{
    let mut count: usize = 0;
    let mut last: usize = 0;
    let mut at: usize = 0;
    assert(bytes@.take(0) =~= Seq::empty());
    while at < bytes.len()
        invariant
            at <= bytes.len(),
            count <= at,
            last <= at,
            count > 0 ==> last < at,
            count == newline_count(bytes@.take(at as int)),
            last == last_newline(bytes@.take(at as int)),
        decreases bytes.len() - at,
    {
        assert(bytes@.take(at + 1).drop_last() =~= bytes@.take(at as int));
        if bytes[at] == 10u8 {
            count += 1;
            last = at;
        }
        at += 1;
    }
    assert(bytes@.take(at as int) =~= bytes@);
    (count, last)
}

fn copy_file(file: &Option<String>) -> (copy: Option<String>)
    ensures
        copy == *file,
{
    match file {
        Some(name) => Some(name.clone()),
        None => None,
    }
}

/// The token that a match in a text gives: none for text that is passed
/// over and for text of no kind; else the matched text with its kind,
/// from the place before it to the place behind it.
pub open spec fn matched_token(
    bytes: Seq<u8>,
    start: usize,
    end: usize,
    kind: Option<TokenType>,
    skipped: bool,
    row: usize,
    column: usize,
    file: Option<String>,
) -> Option<TokenView> {
    let matched = bytes.subrange(start as int, end as int);
    match kind {
        Some(typ) if !skipped => Some(
            TokenView {
                value: decode_utf8(matched),
                typ,
                start_loc: Location { row, column, file },
                end_loc: Location {
                    row: row_after(row as int, matched) as usize,
                    column: column_after(column as int, matched) as usize,
                    file,
                },
            },
        ),
        _ => None,
    }
}

/// Makes the token of a match that was found in `rest` from `start` to
/// `end`, where `rest` starts at the given row and column, and counts the
/// row and the column behind the match. `kind` is the kind of the matched
/// text, and `skipped` says whether the rule that matched is one for text
/// that is passed over.
pub fn token_of_match(
    rest: &str,
    start: usize,
    end: usize,
    kind: Option<TokenType>,
    skipped: bool,
    row: usize,
    column: usize,
    file: &Option<String>,
) -> (step: (Option<Token>, usize, usize))
    requires
        start <= end <= rest.spec_bytes().len(),
        0 < end,
        is_char_boundary(rest.spec_bytes(), start as int),
        is_char_boundary(rest.spec_bytes(), end as int),
        row + rest.spec_bytes().len() <= usize::MAX,
        column + rest.spec_bytes().len() <= usize::MAX,
    ensures
        step.1 == row_after(row as int, rest.spec_bytes().subrange(start as int, end as int)),
        step.2 == column_after(
            column as int,
            rest.spec_bytes().subrange(start as int, end as int),
        ),
        match matched_token(rest.spec_bytes(), start, end, kind, skipped, row, column, *file) {
            Some(token) => step.0 matches Some(found) && found@ == token,
            None => step.0 is None,
        },
        step.1 <= row + (end - start),
        step.2 <= column + (end - start),
{
    let ghost bytes = rest.spec_bytes();
    let (head, _) = rest.split_at(end);
    proof {
        lemma_bytes_of(rest);
        lemma_bytes_of(head);
        lemma_boundary_in_head(bytes, head.spec_bytes(), start as int, end as int);
    }
    let (_, matched) = head.split_at(start);
    proof {
        lemma_bytes_of(matched);
        assert(matched.spec_bytes() =~= bytes.subrange(start as int, end as int));
    }
    let (count, last) = count_newlines(matched.as_bytes());
    let length: usize = byte_len(matched);
    let next_row: usize = row + count;
    let next_column: usize = if count > 0 {
        length - last
    } else {
        column + length
    };
    let token = match kind {
        Some(typ) if !skipped => Some(
            Token {
                value: matched.to_string(),
                typ,
                start_loc: Location::new(row, column, copy_file(file)),
                end_loc: Location::new(next_row, next_column, copy_file(file)),
            },
        ),
        _ => None,
    };
    (token, next_row, next_column)
}

/// Scans a source text into tokens, or finds the first part of it that
/// matches no rule.
pub fn scan_code(code: &str, code_file: &Option<String>) -> (outcome: Result<Vec<Token>, Location>)
    ensures
        match scanned(code@, *code_file) {
            Ok(tokens) => outcome matches Ok(found) && token_views(found@) == tokens,
            Err(location) => outcome == Err::<Vec<Token>, Location>(location),
        },
{
    let total: usize = byte_len(code);
    if total == usize::MAX {
        return Err(Location::new(1, 1, copy_file(code_file)));
    }
    let rules = token_regexes();
    let mut tokens: Vec<Token> = Vec::new();
    let mut rest: &str = code;
    let mut row: usize = 1;
    let mut column: usize = 1;
    assert(token_views(tokens@) =~= Seq::empty());
    while byte_len(rest) > 0
        invariant
            total < usize::MAX,
            rules@ == token_rules(),
            scanned(code@, *code_file) == tokens_of(
                rules@,
                code@,
                *code_file,
                1,
                1,
                Seq::empty(),
            ),
            row + rest.spec_bytes().len() <= total + 1,
            column + rest.spec_bytes().len() <= total + 1,
            tokens_of(rules@, rest@, *code_file, row as int, column as int, token_views(tokens@))
                == tokens_of(rules@, code@, *code_file, 1, 1, Seq::empty()),
        decreases rest.spec_bytes().len(),
    {
        let ghost bytes = rest.spec_bytes();
        match first_rule(&rules, rest) {
            None => {
                return Err(Location::new(row, column, copy_file(code_file)));
            },
            Some((rule, start, end)) => {
                let (head, tail) = rest.split_at(end);
                proof {
                    lemma_bytes_of(rest);
                    lemma_bytes_of(head);
                    lemma_boundary_in_head(bytes, head.spec_bytes(), start as int, end as int);
                }
                let (_, matched) = head.split_at(start);
                proof {
                    lemma_bytes_of(matched);
                    lemma_bytes_of(tail);
                    assert(matched.spec_bytes() =~= bytes.subrange(start as int, end as int));
                    assert(tail.spec_bytes() =~= bytes.skip(end as int));
                }
                assert(matched@ == decode_utf8(bytes.subrange(start as int, end as int)));
                assert(tail@ == decode_utf8(bytes.skip(end as int)));
                assert(encode_utf8(tail@).len() < bytes.len());
                let skipped = match &rules[rule].typ {
                    TokenType::Skipped => true,
                    _ => false,
                };
                let kind = if skipped {
                    None
                } else {
                    match type_in(&rules, matched) {
                        None => {
                            return Err(Location::new(row, column, copy_file(code_file)));
                        },
                        Some(typ) => Some(typ),
                    }
                };
                let (token, next_row, next_column) = token_of_match(
                    rest,
                    start,
                    end,
                    kind,
                    skipped,
                    row,
                    column,
                    code_file,
                );
                match token {
                    Some(token) => {
                        let ghost before = token_views(tokens@);
                        tokens.push(token);
                        assert(token_views(tokens@) =~= before.push(token@));
                    },
                    None => {},
                }
                rest = tail;
                row = next_row;
                column = next_column;
            },
        }
    }
    Ok(tokens)
}

/// The bytes of a text are its encoding, which is valid and decodes to the text.
pub proof fn lemma_bytes_of(text: &str)
    ensures
        text.spec_bytes() == encode_utf8(text@),
        vstd::utf8::valid_utf8(text.spec_bytes()),
        decode_utf8(text.spec_bytes()) == text@,
{
    vstd::utf8::encode_utf8_valid_utf8(text@);
    vstd::utf8::encode_utf8_decode_utf8(text@);
}

/// A place between two characters of a text is also between two characters
/// of the part of the text before a later such place.
pub proof fn lemma_boundary_in_head(bytes: Seq<u8>, head: Seq<u8>, start: int, end: int)
    requires
        vstd::utf8::valid_utf8(bytes),
        vstd::utf8::valid_utf8(head),
        0 <= start <= end <= bytes.len(),
        head == bytes.subrange(0, end),
        is_char_boundary(bytes, start),
    ensures
        is_char_boundary(head, start),
{
    if start == end {
        vstd::utf8::is_char_boundary_start_end_of_seq(head);
    } else {
        vstd::utf8::is_char_boundary_iff_not_is_continuation_byte(bytes, start);
        vstd::utf8::is_char_boundary_iff_not_is_continuation_byte(head, start);
    }
}

/// The place of the first part of a source text that matches no rule for
/// tokens; none if the text can be scanned.
pub fn find_unknown_text(code: &str, code_file: &Option<String>) -> (place: Option<Location>)
    ensures
        match scanned(code@, *code_file) {
            Ok(_) => place is None,
            Err(location) => place == Some(location),
        },
{
    match scan_code(code, code_file) {
        Ok(_) => None,
        Err(location) => Some(location),
    }
}

/// Scans a source text into tokens.
pub fn tokenize_code(code: &str, code_file: Option<String>) -> (tokens: Vec<Token>)
    requires
        scanned(code@, code_file) is Ok,
    ensures
        Ok::<Seq<TokenView>, Location>(token_views(tokens@)) == scanned(code@, code_file),
{
    match scan_code(code, &code_file) {
        Ok(tokens) => tokens,
        Err(_) => Vec::new(),
    }
}

/// Scans a source text into tokens, if every part of it matches a rule.
pub fn try_tokenize_code(code: &str, code_file: Option<String>) -> (outcome: Result<
    Vec<Token>,
    CompilerError,
>)
    ensures
        match scanned(code@, code_file) {
            Ok(tokens) => outcome matches Ok(found) && token_views(found@) == tokens,
            Err(location) => outcome == Err::<Vec<Token>, CompilerError>(
                CompilerError::LexerError(location),
            ),
        },
{
    match find_unknown_text(code, &code_file) {
        None => Ok(tokenize_code(code, code_file)),
        Some(location) => Err(CompilerError::LexerError(location)),
    }
}

} // verus!
