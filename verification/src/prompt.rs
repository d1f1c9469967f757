//! The decisions behind the interactive prompts: what is printed, which
//! answer is taken, and when to ask again.

use vstd::prelude::*;

use crate::text::{
    chars_of, digits_value, is_digit, nat_text, owned, texts_view, trim, trim_seq, u64_text,
};

verus! {

/// Why a selection cannot be made.
#[derive(Debug)]
pub enum PromptError {
    /// There is nothing to select from; names what was to be selected.
    NoItems(String),
    /// The answer is not a number.
    NotANumber,
}

/// The text shown before reading an answer: `<text>: `.
pub fn prompt_text(text: &str) -> (r: String)
    ensures
        r@ == text@ + ": "@,
{
    let mut r = owned(text);
    r.append(": ");
    r
}

/// The text shown before reading an answer that has a default:
/// `<text> [<default>]: `.
pub fn prompt_default_text(text: &str, default: &str) -> (r: String)
    ensures
        r@ == text@ + " ["@ + default@ + "]: "@,
{
    let mut r = owned(text);
    r.append(" [");
    r.append(default);
    r.append("]: ");
    r
}

/// The value of an answer to a prompt with a default: the trimmed answer,
/// or the default when nothing is left of it.
pub fn resolve_default(input: &str, default: &str) -> (r: String)
    ensures
        r@ == if trim_seq(input@).len() == 0 {
            default@
        } else {
            trim_seq(input@)
        },
{
    let value = trim(input);
    if value.as_str().is_empty() {
        owned(default)
    } else {
        value
    }
}

/// The lines that offer a selection: `<title>:`, then `  <n>) <label>` for
/// each choice, numbered from 1.
pub open spec fn menu_lines(title: Seq<char>, labels: Seq<Seq<char>>) -> Seq<Seq<char>> {
    seq![title + ":"@] + Seq::new(
        labels.len(),
        |i: int| "  "@ + nat_text((i + 1) as nat) + ") "@ + labels[i],
    )
}

pub fn selection_menu(title: &str, labels: &Vec<String>) -> (r: Result<Vec<String>, PromptError>)
    ensures
        match r {
            Ok(lines) => labels@.len() > 0 && texts_view(lines@) == menu_lines(
                title@,
                texts_view(labels@),
            ),
            Err(e) => labels@.len() == 0 && (e matches PromptError::NoItems(t) && t@ == title@),
        },
{
    if labels.len() == 0 {
        return Err(PromptError::NoItems(owned(title)));
    }
    let mut lines: Vec<String> = Vec::new();
    let mut head = owned(title);
    head.append(":");
    lines.push(head);
    let mut i: usize = 0;
    while i < labels.len()
        invariant
            i <= labels@.len(),
            texts_view(lines@) == menu_lines(title@, texts_view(labels@)).take(i + 1),
        decreases labels@.len() - i,
    {
        let mut line = owned("  ");
        let number = u64_text((i + 1) as u64);
        line.append(number.as_str());
        line.append(") ");
        line.append(labels[i].as_str());
        assert(line@ == "  "@ + nat_text((i + 1) as nat) + ") "@ + texts_view(labels@)[i as int]);
        let ghost before = lines@;
        lines.push(line);
        assert(texts_view(lines@) =~= texts_view(before).push(line@));
        assert(texts_view(lines@) =~= menu_lines(title@, texts_view(labels@)).take(i + 2));
        i = i + 1;
    }
    assert(menu_lines(title@, texts_view(labels@)).take(labels@.len() + 1 as int) =~= menu_lines(
        title@,
        texts_view(labels@),
    ));
    Ok(lines)
}

/// The text after an optional leading `+`.
pub open spec fn usize_digits_part(s: Seq<char>) -> Seq<char> {
    if s.len() > 0 && s[0] == '+' {
        s.subrange(1, s.len() as int)
    } else {
        s
    }
}

pub open spec fn all_digits(s: Seq<char>) -> bool {
    forall|i: int| 0 <= i < s.len() ==> is_digit(#[trigger] s[i])
}

/// What `str::parse::<usize>` yields: an optional `+`, then one or more
/// decimal digits, for a value that fits.
pub open spec fn spec_parse_usize(s: Seq<char>) -> Option<nat> {
    let body = usize_digits_part(s);
    if body.len() > 0 && all_digits(body) && digits_value(body) <= usize::MAX {
        Some(digits_value(body))
    } else {
        None
    }
}

proof fn lemma_digits_value_grows(s: Seq<char>, k: int)
    requires
        0 <= k <= s.len(),
        forall|i: int| 0 <= i < s.len() ==> is_digit(#[trigger] s[i]),
    ensures
        digits_value(s.take(k)) <= digits_value(s),
    decreases s.len() - k,
{
    if k < s.len() {
        lemma_digits_value_grows(s, k + 1);
        assert(s.take(k + 1).drop_last() =~= s.take(k));
    } else {
        assert(s.take(k) =~= s);
    }
}

pub fn parse_usize(s: &str) -> (r: Option<usize>)
    ensures
        match spec_parse_usize(s@) {
            Some(v) => r == Some(v as usize),
            None => r is None,
        },
{
    let v = chars_of(s);
    let start: usize = if v.len() > 0 && v[0] == '+' {
        1
    } else {
        0
    };
    let ghost body = v@.subrange(start as int, v@.len() as int);
    assert(body == usize_digits_part(s@)) by {
        if start == 0 {
            assert(body =~= s@);
        }
    };
    if start == v.len() {
        assert(body.len() == 0);
        return None;
    }
    let mut value: usize = 0;
    let mut i: usize = start;
    while i < v.len()
        invariant
            start <= i <= v@.len(),
            v@ == s@,
            body == v@.subrange(start as int, v@.len() as int),
            body == usize_digits_part(s@),
            forall|j: int| 0 <= j < i - start ==> is_digit(#[trigger] body[j]),
            value == digits_value(body.take(i - start)),
        decreases v@.len() - i,
    {
        let c = v[i];
        if !('0' <= c && c <= '9') {
            assert(!is_digit(body[i - start]));
            assert(!all_digits(body));
            assert(spec_parse_usize(s@) is None);
            return None;
        }
        let d = (c as u32 - '0' as u32) as usize;
        assert(body.take(i + 1 - start).drop_last() =~= body.take(i - start));
        assert(body.take(i + 1 - start).last() == c);
        let ghost next = digits_value(body.take(i + 1 - start));
        if value > (usize::MAX - d) / 10 {
            proof {
                assert(next > usize::MAX) by (nonlinear_arith)
                    requires
                        value > (usize::MAX - d) / 10,
                        next == value * 10 + d,
                        d <= 9,
                ;
                if all_digits(body) {
                    lemma_digits_value_grows(body, i + 1 - start);
                    assert(digits_value(body) > usize::MAX);
                }
                assert(spec_parse_usize(s@) is None);
            }
            return None;
        }
        value = value * 10 + d;
        i = i + 1;
    }
    assert(body.take(body.len() as int) =~= body);
    Some(value)
}

/// What an answer to a selection means: `Ok(Some(i))` selects the `i`-th
/// choice (counting from 0), `Ok(None)` is out of range and asks again, and
/// an answer that is not a number is an error.
pub fn selection_outcome(input: &str, count: usize) -> (r: Result<Option<usize>, PromptError>)
    ensures
        match spec_parse_usize(input@) {
            None => r matches Err(PromptError::NotANumber),
            Some(n) => if n == 0 || n > count {
                r matches Ok(None)
            } else {
                r matches Ok(Some(i)) && i == n - 1
            },
        },
{
    match parse_usize(input) {
        None => Err(PromptError::NotANumber),
        Some(n) => if n == 0 || n > count {
            Ok(None)
        } else {
            Ok(Some(n - 1))
        },
    }
}

} // verus!
