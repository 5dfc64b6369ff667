//! The render engine: expands a render rule against an event's custom data.
//!
//! A rule is literal text with substitutions. A substitution is written
//! `{path}` or `{path:directive}`: the path names a field of the custom
//! data, the directive says how an integer is shown. The directives are
//! `date` (the day of a non-negative instant in seconds, as `YYYY-MM-DD`),
//! `time` (its time of day, as `HH:MM:SS`) and `signed` (a plus sign before
//! a non-negative number); any other directive is ignored, and so is any
//! directive on text or on a negative number. A rule is invalid where a
//! brace is left open, a closing brace stands alone, a brace opens inside a
//! substitution, or a path is empty.

use vstd::prelude::*;
use crate::events::Document;
use crate::events::Field;
use crate::events::Value;
use crate::text::calendar;
use crate::text::clock;
use crate::text::copy_bytes;
use crate::text::decimal;
use crate::text::digits;
use crate::text::find;
use crate::text::lemma_scan_bounds;
use crate::text::lemma_scan_result;
use crate::text::lemma_scan_stops;
use crate::text::push_calendar;
use crate::text::push_clock;
use crate::text::push_decimal;
use crate::text::push_digits;
use crate::text::same_bytes;
use crate::text::scan;

verus! {

/// The byte that opens a substitution: `{`.
pub const OPEN: u8 = 123;

/// The byte that closes a substitution: `}`.
pub const CLOSE: u8 = 125;

/// The byte that separates fields: `:`.
pub const COLON: u8 = 58;

/// Why a render failed.
#[derive(Clone, Copy, Debug, PartialEq, Eq)]
pub enum RenderError {
    /// The rule's text is not a valid rule.
    InvalidRule,
}

/// The outcome of a render: the display text, and one warning for each
/// substitution whose field the custom data lacks, given as the offset in
/// the rule at which that substitution opens.
#[derive(Clone, Debug, PartialEq, Eq)]
pub struct Rendered {
    pub text: Vec<u8>,
    pub unresolved: Vec<usize>,
}

/// The directive `time`.
pub open spec fn time_name() -> Seq<u8> {
    seq![116u8, 105u8, 109u8, 101u8]
}

/// The directive `date`.
pub open spec fn date_name() -> Seq<u8> {
    seq![100u8, 97u8, 116u8, 101u8]
}

/// The directive `signed`.
pub open spec fn signed_name() -> Seq<u8> {
    seq![115u8, 105u8, 103u8, 110u8, 101u8, 100u8]
}

/// The index of the first of `fields[i..]` whose path is `path`.
pub open spec fn position(fields: Seq<Field>, path: Seq<u8>, i: int) -> Option<int>
    decreases fields.len() - i,
{
    if i < 0 || i >= fields.len() {
        None
    } else if fields[i].path@ == path {
        Some(i)
    } else {
        position(fields, path, i + 1)
    }
}

/// The display text of a value under a directive.
pub open spec fn shown(v: Value, directive: Seq<u8>) -> Seq<u8> {
    match v {
        Value::Text(t) => t@,
        Value::Integer(n) => if n >= 0 && directive == time_name() {
            clock(n as int)
        } else if n >= 0 && directive == date_name() {
            calendar(n as int)
        } else if n >= 0 && directive == signed_name() {
            seq![43u8] + digits(n as nat)
        } else {
            decimal(n as int)
        },
    }
}

/// The expansion of `rule[i..]`: the text and the warnings, or `None` where
/// the rule is invalid from `i` on.
pub open spec fn expand(rule: Seq<u8>, i: int, fields: Seq<Field>) -> Option<(Seq<u8>, Seq<usize>)>
    decreases rule.len() - i,
{
    if i < 0 || i >= rule.len() {
        Some((Seq::empty(), Seq::empty()))
    } else if rule[i] == CLOSE {
        None
    } else if rule[i] == OPEN {
        let j = scan(rule, i + 1, rule.len() as int, OPEN, CLOSE);
        let c = scan(rule, i + 1, j, COLON, COLON);
        let d = if c < j { c + 1 } else { j };
        if j <= i || j >= rule.len() || rule[j] == OPEN || c == i + 1 {
            None
        } else {
            match expand(rule, j + 1, fields) {
                None => None,
                Some((text, missing)) => match position(fields, rule.subrange(i + 1, c), 0) {
                    Some(k) => Some((shown(fields[k].value, rule.subrange(d, j)) + text, missing)),
                    None => Some((text, seq![i as usize] + missing)),
                },
            }
        }
    } else {
        match expand(rule, i + 1, fields) {
            None => None,
            Some((text, missing)) => Some((seq![rule[i]] + text, missing)),
        }
    }
}

/// The fields of a custom data payload; none where it is absent.
pub open spec fn fields_of(data: Option<Document>) -> Seq<Field> {
    match data {
        Some(doc) => doc.fields@,
        None => Seq::empty(),
    }
}

/// What a render yields: the title where there is no rule, else the rule's
/// expansion; `None` where the rule is invalid.
pub open spec fn rendering(rule: Option<Vec<u8>>, data: Option<Document>, title: Seq<u8>) -> Option<
    (Seq<u8>, Seq<usize>),
> {
    match rule {
        None => Some((title, Seq::empty())),
        Some(r) => expand(r@, 0, fields_of(data)),
    }
}

/// What is written so far, followed by what the rest of the rule expands to.
pub open spec fn joined(text: Seq<u8>, missing: Seq<usize>, rest: Option<(Seq<u8>, Seq<usize>)>) -> Option<
    (Seq<u8>, Seq<usize>),
> {
    match rest {
        None => None,
        Some((t, m)) => Some((text + t, missing + m)),
    }
}

/// Finds the field that a substitution names.
pub fn locate(fields: &Vec<Field>, rule: &[u8], start: usize, end: usize) -> (found: Option<usize>)
    requires
        start <= end <= rule@.len(),
    ensures
        found matches Some(k) ==> k < fields@.len() && position(
            fields@,
            rule@.subrange(start as int, end as int),
            0,
        ) == Some(k as int),
        found is None ==> position(fields@, rule@.subrange(start as int, end as int), 0) is None,
{
    let ghost path = rule@.subrange(start as int, end as int);
    let mut k: usize = 0;
    while k < fields.len()
        invariant
            start <= end <= rule@.len(),
            k <= fields@.len(),
            path == rule@.subrange(start as int, end as int),
            position(fields@, path, 0) == position(fields@, path, k as int),
        decreases fields@.len() - k,
    {
        if same_bytes(rule, start, end, fields[k].path.as_slice()) {
            return Some(k);
        }
        k += 1;
    }
    None
}

/// Appends the display text of `v` under the directive `rule[start..end]`.
pub fn show(out: &mut Vec<u8>, v: &Value, rule: &[u8], start: usize, end: usize)
    requires
        start <= end <= rule@.len(),
    ensures
        final(out)@ == old(out)@ + shown(*v, rule@.subrange(start as int, end as int)),
{
    match v {
        Value::Text(t) => {
            copy_bytes(out, t.as_slice(), 0, t.len());
            assert(t@.subrange(0, t@.len() as int) =~= t@);
        },
        Value::Integer(n) => {
            let time: Vec<u8> = vec![116u8, 105u8, 109u8, 101u8];
            let date: Vec<u8> = vec![100u8, 97u8, 116u8, 101u8];
            let signed: Vec<u8> = vec![115u8, 105u8, 103u8, 110u8, 101u8, 100u8];
            assert(time@ =~= time_name());
            assert(date@ =~= date_name());
            assert(signed@ =~= signed_name());
            if *n >= 0 && same_bytes(rule, start, end, time.as_slice()) {
                push_clock(out, *n);
            } else if *n >= 0 && same_bytes(rule, start, end, date.as_slice()) {
                push_calendar(out, *n);
            } else if *n >= 0 && same_bytes(rule, start, end, signed.as_slice()) {
                out.push(43u8);
                push_digits(out, *n as u64);
                assert(out@ =~= old(out)@ + (seq![43u8] + digits(*n as nat)));
            } else {
                push_decimal(out, *n);
            }
        },
    }
}

/// Expands a whole rule against the fields of a payload.
pub fn expand_rule(rule: &[u8], fields: &Vec<Field>) -> (r: Result<Rendered, RenderError>)
    ensures
        match expand(rule@, 0, fields@) {
            Some((text, missing)) => r matches Ok(out) && out.text@ == text && out.unresolved@
                == missing,
            None => r == Err::<Rendered, RenderError>(RenderError::InvalidRule),
        },
{
    let n: usize = rule.len();
    let mut text: Vec<u8> = Vec::new();
    let mut unresolved: Vec<usize> = Vec::new();
    let mut i: usize = 0;
    while i < n
        invariant
            i <= n,
            n == rule@.len(),
            expand(rule@, 0, fields@) == joined(
                text@,
                unresolved@,
                expand(rule@, i as int, fields@),
            ),
        decreases n - i,
    {
        let b: u8 = rule[i];
        let ghost text0 = text@;
        let ghost unresolved0 = unresolved@;
        if b == CLOSE {
            return Err(RenderError::InvalidRule);
        } else if b == OPEN {
            let j: usize = find(rule, i + 1, n, OPEN, CLOSE);
            if j >= n || rule[j] == OPEN {
                return Err(RenderError::InvalidRule);
            }
            let c: usize = find(rule, i + 1, j, COLON, COLON);
            if c == i + 1 {
                return Err(RenderError::InvalidRule);
            }
            let d: usize = if c < j { c + 1 } else { j };
            match locate(fields, rule, i + 1, c) {
                Some(k) => {
                    show(&mut text, &fields[k].value, rule, d, j);
                    proof {
                        match expand(rule@, j + 1, fields@) {
                            Some((t, m)) => {
                                let s = shown(fields@[k as int].value, rule@.subrange(d as int, j as int));
                                assert((text0 + s) + t =~= text0 + (s + t));
                            },
                            None => {},
                        }
                    }
                },
                None => {
                    unresolved.push(i);
                    proof {
                        match expand(rule@, j + 1, fields@) {
                            Some((t, m)) => {
                                assert(unresolved0.push(i) + m =~= unresolved0 + (seq![i] + m));
                            },
                            None => {},
                        }
                    }
                },
            }
            i = j + 1;
        } else {
            text.push(b);
            proof {
                match expand(rule@, i + 1, fields@) {
                    Some((t, m)) => {
                        assert(text0.push(b) + t =~= text0 + (seq![b] + t));
                    },
                    None => {},
                }
            }
            i += 1;
        }
    }
    proof {
        assert(text@ + Seq::<u8>::empty() =~= text@);
        assert(unresolved@ + Seq::<usize>::empty() =~= unresolved@);
    }
    Ok(Rendered { text, unresolved })
}

/// Produces the display text of an event: its title where it has no render
/// rule, else the rule expanded against the custom data. A field that the
/// custom data lacks leaves its place empty and adds a warning; only an
/// invalid rule fails.
pub fn render(rule: &Option<Vec<u8>>, custom_data: &Option<Document>, title: &Vec<u8>) -> (r:
    Result<Rendered, RenderError>)
    ensures
        match rendering(*rule, *custom_data, title@) {
            Some((text, missing)) => r matches Ok(out) && out.text@ == text && out.unresolved@
                == missing,
            None => r == Err::<Rendered, RenderError>(RenderError::InvalidRule),
        },
{
    match rule {
        None => {
            let mut text: Vec<u8> = Vec::new();
            copy_bytes(&mut text, title.as_slice(), 0, title.len());
            assert(text@ =~= title@);
            Ok(Rendered { text, unresolved: Vec::new() })
        },
        Some(r) => match custom_data {
            Some(doc) => expand_rule(r.as_slice(), &doc.fields),
            None => {
                let none: Vec<Field> = Vec::new();
                expand_rule(r.as_slice(), &none)
            },
        },
    }
}

/// Without a rule the render is the title, unchanged and without warnings,
/// whatever the custom data.
pub proof fn lemma_absent_rule_renders_title(data: Option<Document>, title: Seq<u8>)
    ensures
        rendering(None, data, title) == Some((title, Seq::<usize>::empty())),
{
}

/// Whether a rule is valid does not depend on the custom data: a field that
/// is missing never fails a render.
pub proof fn lemma_validity_ignores_data(rule: Seq<u8>, i: int, one: Seq<Field>, other: Seq<Field>)
    ensures
        expand(rule, i, one) is Some <==> expand(rule, i, other) is Some,
    decreases rule.len() - i,
{
    if 0 <= i < rule.len() && rule[i] != CLOSE {
        if rule[i] == OPEN {
            let j = scan(rule, i + 1, rule.len() as int, OPEN, CLOSE);
            lemma_scan_bounds(rule, i + 1, rule.len() as int, OPEN, CLOSE);
            if j < rule.len() {
                lemma_validity_ignores_data(rule, j + 1, one, other);
            }
        } else {
            lemma_validity_ignores_data(rule, i + 1, one, other);
        }
    }
}

/// A stretch of the rule without braces is copied as it stands.
pub proof fn lemma_literal_run(rule: Seq<u8>, i: int, n: int, fields: Seq<Field>)
    requires
        0 <= i <= n <= rule.len(),
        forall|k: int| i <= k < n ==> rule[k] != OPEN && rule[k] != CLOSE,
    ensures
        expand(rule, i, fields) == joined(
            rule.subrange(i, n),
            Seq::empty(),
            expand(rule, n, fields),
        ),
    decreases n - i,
{
    let rest = expand(rule, n, fields);
    if i == n {
        if let Some((t, m)) = rest {
            assert(rule.subrange(i, n) + t =~= t);
            assert(Seq::<usize>::empty() + m =~= m);
        }
    } else {
        lemma_literal_run(rule, i + 1, n, fields);
        if let Some((t, m)) = rest {
            assert(seq![rule[i]] + (rule.subrange(i + 1, n) + t) =~= rule.subrange(i, n) + t);
        }
    }
}

/// A rule of plain text round one substitution whose field the custom data
/// lacks renders as that text with nothing in the substitution's place, and
/// warns of the substitution.
pub proof fn lemma_missing_field_leaves_gap(
    before: Seq<u8>,
    path: Seq<u8>,
    rest: Seq<u8>,
    fields: Seq<Field>,
)
    requires
        forall|k: int| 0 <= k < before.len() ==> before[k] != OPEN && before[k] != CLOSE,
        forall|k: int| 0 <= k < rest.len() ==> rest[k] != OPEN && rest[k] != CLOSE,
        forall|k: int|
            0 <= k < path.len() ==> path[k] != OPEN && path[k] != CLOSE && path[k] != COLON,
        path.len() > 0,
        before.len() <= usize::MAX,
        position(fields, path, 0) is None,
    ensures
        expand(before + seq![OPEN] + path + seq![CLOSE] + rest, 0, fields) == Some(
            (before + rest, seq![before.len() as usize]),
        ),
{
    let rule = before + seq![OPEN] + path + seq![CLOSE] + rest;
    let n = before.len() as int;
    let j = n + 1 + path.len();
    let len = rule.len() as int;
    assert(len == j + 1 + rest.len());
    assert forall|k: int| 0 <= k < n implies rule[k] == before[k] by {}
    assert(rule[n] == OPEN);
    assert forall|k: int| n + 1 <= k < j implies rule[k] == path[k - n - 1] by {}
    assert(rule[j] == CLOSE);
    assert forall|k: int| j + 1 <= k < len implies rule[k] == rest[k - j - 1] by {}
    lemma_literal_run(rule, 0, n, fields);
    lemma_scan_stops(rule, n + 1, j, len, OPEN, CLOSE);
    lemma_scan_stops(rule, n + 1, j, j, COLON, COLON);
    lemma_literal_run(rule, j + 1, len, fields);
    assert(rule.subrange(n + 1, j) =~= path);
    assert(rule.subrange(0, n) =~= before);
    assert(rule.subrange(j + 1, len) =~= rest);
    assert(expand(rule, len, fields) == Some((Seq::<u8>::empty(), Seq::<usize>::empty())));
    assert(rest + Seq::<u8>::empty() =~= rest);
    assert(Seq::<usize>::empty() + Seq::<usize>::empty() =~= Seq::<usize>::empty());
    assert(expand(rule, j + 1, fields) == Some((rest, Seq::<usize>::empty())));
    assert(seq![n as usize] + Seq::<usize>::empty() =~= seq![n as usize]);
    assert(expand(rule, n, fields) == Some((rest, seq![n as usize])));
    assert(Seq::<usize>::empty() + seq![n as usize] =~= seq![n as usize]);
}

/// The path of the substitution that opens at `i`.
pub open spec fn path_at(rule: Seq<u8>, i: int) -> Seq<u8> {
    let close = scan(rule, i + 1, rule.len() as int, OPEN, CLOSE);
    rule.subrange(i + 1, scan(rule, i + 1, close, COLON, COLON))
}

/// The substitution that opens at `i` names a field that `fields` lacks.
pub open spec fn unresolved_at(rule: Seq<u8>, i: int, fields: Seq<Field>) -> bool {
    0 <= i < rule.len() && rule[i] == OPEN && position(fields, path_at(rule, i), 0) is None
}

/// The warnings of a valid rule are exactly the offsets of its substitutions
/// whose field the custom data lacks, however many there are: every such
/// substitution is warned of, and nothing else is.
pub proof fn lemma_warnings_are_the_unresolved(rule: Seq<u8>, start: int, fields: Seq<Field>)
    requires
        0 <= start,
        rule.len() <= usize::MAX,
        expand(rule, start, fields) is Some,
    ensures
        forall|w: usize| #[trigger]
            expand(rule, start, fields)->Some_0.1.contains(w) <==> start <= w && unresolved_at(
                rule,
                w as int,
                fields,
            ),
    decreases rule.len() - start,
{
    let missing = expand(rule, start, fields)->Some_0.1;
    if start >= rule.len() {
        assert forall|w: usize| #[trigger]
            missing.contains(w) <==> start <= w && unresolved_at(rule, w as int, fields) by {}
    } else if rule[start] == OPEN {
        let j = scan(rule, start + 1, rule.len() as int, OPEN, CLOSE);
        lemma_scan_result(rule, start + 1, rule.len() as int, OPEN, CLOSE);
        lemma_warnings_are_the_unresolved(rule, j + 1, fields);
        let rest = expand(rule, j + 1, fields)->Some_0.1;
        let here = start as usize;
        assert forall|w: usize| #[trigger]
            missing.contains(w) <==> start <= w && unresolved_at(rule, w as int, fields) by {
            if unresolved_at(rule, start, fields) {
                assert(missing == seq![here] + rest);
                if rest.contains(w) {
                    let k = choose|k: int| 0 <= k < rest.len() && rest[k] == w;
                    assert(missing[k + 1] == w);
                }
                if w == here {
                    assert(missing[0] == w);
                }
                if missing.contains(w) {
                    let k = choose|k: int| 0 <= k < missing.len() && missing[k] == w;
                    if k > 0 {
                        assert(rest[k - 1] == w);
                    }
                }
            } else {
                assert(missing == rest);
            }
        }
    } else {
        lemma_warnings_are_the_unresolved(rule, start + 1, fields);
    }
}

/// A render with warnings is still a render: where the rule is valid, the
/// call gives a text, and it gives a warning exactly where a substitution
/// names a field that the custom data lacks.
pub proof fn lemma_unresolved_field_is_warned_of(
    rule: Vec<u8>,
    data: Option<Document>,
    title: Seq<u8>,
    at: usize,
)
    requires
        rendering(Some(rule), data, title) is Some,
    ensures
        rendering(Some(rule), data, title)->Some_0.1.contains(at) <==> unresolved_at(
            rule@,
            at as int,
            fields_of(data),
        ),
{
    assert(rule@.len() == rule.len());
    lemma_warnings_are_the_unresolved(rule@, 0, fields_of(data));
}

/// A rule with a brace that opens and no brace after it is invalid, whatever
/// stands before that brace and whatever the custom data.
pub proof fn lemma_open_brace_is_invalid(rule: Seq<u8>, start: int, open: int, fields: Seq<Field>)
    requires
        0 <= start <= open < rule.len(),
        rule[open] == OPEN,
        forall|k: int| open < k < rule.len() ==> rule[k] != OPEN && rule[k] != CLOSE,
    ensures
        expand(rule, start, fields) is None,
    decreases open - start,
{
    let len = rule.len() as int;
    if start == open {
        lemma_scan_stops(rule, open + 1, len, len, OPEN, CLOSE);
    } else if rule[start] == OPEN {
        let j = scan(rule, start + 1, len, OPEN, CLOSE);
        lemma_scan_result(rule, start + 1, len, OPEN, CLOSE);
        if j < len && rule[j] == CLOSE {
            lemma_open_brace_is_invalid(rule, j + 1, open, fields);
        }
    } else if rule[start] != CLOSE {
        lemma_open_brace_is_invalid(rule, start + 1, open, fields);
    }
}

/// A closing brace outside a substitution makes a rule invalid: here, one
/// that stands after plain text.
pub proof fn lemma_stray_close_is_invalid(rule: Seq<u8>, close: int, fields: Seq<Field>)
    requires
        0 <= close < rule.len(),
        rule[close] == CLOSE,
        forall|k: int| 0 <= k < close ==> rule[k] != OPEN && rule[k] != CLOSE,
    ensures
        expand(rule, 0, fields) is None,
{
    lemma_literal_run(rule, 0, close, fields);
}

/// One substitution, from its opening brace at `i` to its closing brace at
/// `j`, with its path ending at `c` (a colon, or `j` where it has no
/// directive): the value of its field is written, or nothing and a warning,
/// and the rule goes on behind the closing brace.
pub proof fn lemma_substitution(rule: Seq<u8>, i: int, c: int, j: int, fields: Seq<Field>)
    requires
        0 <= i,
        i + 1 < c <= j < rule.len(),
        rule[i] == OPEN,
        rule[j] == CLOSE,
        c < j ==> rule[c] == COLON,
        forall|k: int| i < k < c ==> rule[k] != OPEN && rule[k] != CLOSE && rule[k] != COLON,
        forall|k: int| c <= k < j ==> rule[k] != OPEN && rule[k] != CLOSE,
    ensures
        expand(rule, i, fields) == match expand(rule, j + 1, fields) {
            None => None,
            Some((text, missing)) => match position(fields, rule.subrange(i + 1, c), 0) {
                Some(k) => Some(
                    (
                        shown(
                            fields[k].value,
                            rule.subrange(
                                if c < j {
                                    c + 1
                                } else {
                                    j
                                },
                                j,
                            ),
                        ) + text,
                        missing,
                    ),
                ),
                None => Some((text, seq![i as usize] + missing)),
            },
        },
{
    lemma_scan_stops(rule, i + 1, j, rule.len() as int, OPEN, CLOSE);
    lemma_scan_stops(rule, i + 1, c, j, COLON, COLON);
}

/// The rule made of the given parts, each a stretch of plain text and the
/// path of the substitution behind it, and of the plain text `tail`.
pub open spec fn built(parts: Seq<(Seq<u8>, Seq<u8>)>, tail: Seq<u8>) -> Seq<u8>
    decreases parts.len(),
{
    if parts.len() == 0 {
        tail
    } else {
        parts[0].0 + seq![OPEN] + parts[0].1 + seq![CLOSE] + built(parts.drop_first(), tail)
    }
}

/// What the rule made of the given parts shows: every stretch of plain text
/// in its order, and behind each the value of the field that its path
/// names, or nothing where the custom data lacks that field.
pub open spec fn built_text(parts: Seq<(Seq<u8>, Seq<u8>)>, tail: Seq<u8>, fields: Seq<Field>) -> Seq<u8>
    decreases parts.len(),
{
    if parts.len() == 0 {
        tail
    } else {
        parts[0].0 + (match position(fields, parts[0].1, 0) {
            Some(k) => shown(fields[k].value, Seq::empty()),
            None => Seq::empty(),
        }) + built_text(parts.drop_first(), tail, fields)
    }
}

/// The text is free of braces.
pub open spec fn plain(text: Seq<u8>) -> bool {
    forall|k: int| 0 <= k < text.len() ==> text[k] != OPEN && text[k] != CLOSE
}

/// The parts are stretches of plain text and paths: a path is not empty and
/// holds no brace and no colon.
pub open spec fn plain_parts(parts: Seq<(Seq<u8>, Seq<u8>)>) -> bool {
    forall|n: int|
        0 <= n < parts.len() ==> plain(#[trigger] parts[n].0) && plain(parts[n].1)
            && parts[n].1.len() > 0 && forall|k: int|
            0 <= k < parts[n].1.len() ==> parts[n].1[k] != COLON
}

/// A rule of any number of substitutions, where `rule[i..]` is made of
/// `parts` and `tail`, never fails, and shows `built_text`: all the plain
/// text is kept, in order, whichever fields are missing.
pub proof fn lemma_built_rule_expands(
    rule: Seq<u8>,
    i: int,
    parts: Seq<(Seq<u8>, Seq<u8>)>,
    tail: Seq<u8>,
    fields: Seq<Field>,
)
    requires
        0 <= i <= rule.len(),
        rule.subrange(i, rule.len() as int) == built(parts, tail),
        plain_parts(parts),
        plain(tail),
    ensures
        expand(rule, i, fields) is Some,
        expand(rule, i, fields)->Some_0.0 == built_text(parts, tail, fields),
    decreases parts.len(),
{
    let len = rule.len() as int;
    let whole = rule.subrange(i, len);
    if parts.len() == 0 {
        assert forall|k: int| i <= k < len implies rule[k] != OPEN && rule[k] != CLOSE by {
            assert(whole[k - i] == rule[k]);
        }
        lemma_literal_run(rule, i, len, fields);
        assert(whole + Seq::<u8>::empty() =~= whole);
    } else {
        let text = parts[0].0;
        let path = parts[0].1;
        let rest = built(parts.drop_first(), tail);
        let n = i + text.len();
        let j = n + 1 + path.len();
        assert(whole.len() == text.len() + 1 + path.len() + 1 + rest.len());
        assert forall|k: int| i <= k < n implies rule[k] == text[k - i] by {
            assert(whole[k - i] == rule[k]);
        }
        assert(rule[n] == OPEN) by {
            assert(whole[n - i] == rule[n]);
        }
        assert forall|k: int| n < k < j implies rule[k] == path[k - n - 1] by {
            assert(whole[k - i] == rule[k]);
        }
        assert(rule[j] == CLOSE) by {
            assert(whole[j - i] == rule[j]);
        }
        assert(rule.subrange(j + 1, len) =~= rest) by {
            assert forall|k: int| 0 <= k < rest.len() implies rule[j + 1 + k] == #[trigger] rest[k] by {
                assert(whole[j + 1 + k - i] == rule[j + 1 + k]);
            }
        }
        assert(rule.subrange(i, n) =~= text);
        assert(rule.subrange(n + 1, j) =~= path);
        assert(rule.subrange(j, j) =~= Seq::<u8>::empty());
        assert(plain_parts(parts.drop_first())) by {
            assert forall|m: int| 0 <= m < parts.drop_first().len() implies plain(
                #[trigger] parts.drop_first()[m].0,
            ) && plain(parts.drop_first()[m].1) && parts.drop_first()[m].1.len() > 0 && forall|
                k: int,
            |
                0 <= k < parts.drop_first()[m].1.len() ==> parts.drop_first()[m].1[k] != COLON by {
                assert(parts.drop_first()[m] == parts[m + 1]);
            }
        }
        lemma_built_rule_expands(rule, j + 1, parts.drop_first(), tail, fields);
        lemma_substitution(rule, n, j, j, fields);
        lemma_literal_run(rule, i, n, fields);
        let shown_here = match position(fields, path, 0) {
            Some(k) => shown(fields[k].value, Seq::empty()),
            None => Seq::empty(),
        };
        let after = built_text(parts.drop_first(), tail, fields);
        assert(expand(rule, n, fields)->Some_0.0 =~= shown_here + after);
        assert(text + (shown_here + after) =~= text + shown_here + after);
    }
}

/// Where any of the plain text is not empty, neither is what the rule
/// shows.
pub proof fn lemma_built_text_is_not_empty(
    parts: Seq<(Seq<u8>, Seq<u8>)>,
    tail: Seq<u8>,
    fields: Seq<Field>,
)
    requires
        tail.len() > 0 || exists|n: int| 0 <= n < parts.len() && (#[trigger] parts[n]).0.len() > 0,
    ensures
        built_text(parts, tail, fields).len() > 0,
    decreases parts.len(),
{
    if parts.len() > 0 && parts[0].0.len() == 0 {
        if tail.len() == 0 {
            let n = choose|n: int| 0 <= n < parts.len() && (#[trigger] parts[n]).0.len() > 0;
            assert(parts.drop_first()[n - 1] == parts[n]);
        }
        lemma_built_rule_text_rest(parts, tail, fields);
        lemma_built_text_is_not_empty(parts.drop_first(), tail, fields);
    }
}

/// What a rule shows ends with what the rule behind its first substitution
/// shows.
pub proof fn lemma_built_rule_text_rest(
    parts: Seq<(Seq<u8>, Seq<u8>)>,
    tail: Seq<u8>,
    fields: Seq<Field>,
)
    requires
        parts.len() > 0,
    ensures
        built_text(parts, tail, fields).len() >= parts[0].0.len() + built_text(
            parts.drop_first(),
            tail,
            fields,
        ).len(),
{
}

/// A render rule of plain text and any number of substitutions renders,
/// whichever of its fields the custom data lacks, and absent custom data
/// too: the call gives all the plain text in order, with the value of each
/// field that is there and nothing for each that is not.
pub proof fn lemma_render_keeps_plain_text(
    rule: Vec<u8>,
    data: Option<Document>,
    title: Seq<u8>,
    parts: Seq<(Seq<u8>, Seq<u8>)>,
    tail: Seq<u8>,
)
    requires
        rule@ == built(parts, tail),
        plain_parts(parts),
        plain(tail),
    ensures
        rendering(Some(rule), data, title) is Some,
        rendering(Some(rule), data, title)->Some_0.0 == built_text(parts, tail, fields_of(data)),
{
    assert(rule@.subrange(0, rule@.len() as int) =~= rule@);
    lemma_built_rule_expands(rule@, 0, parts, tail, fields_of(data));
}

} // verus!
