//! The stored text of an event's custom data.
//!
//! The text is a list of lines, each written `path=value`. A value that
//! reads as a number is an integer, any other value is text. A line without
//! an equals sign, or with nothing before it, is ignored.

use vstd::prelude::*;
use crate::codec::number;
use crate::codec::parse_number;
use crate::events::Document;
use crate::events::Field;
use crate::events::Value;
use crate::text::copy_bytes;
use crate::text::find;
use crate::text::scan;

verus! {

/// The byte that ends a line.
pub const NEWLINE: u8 = 10;

/// The byte between a path and its value: `=`.
pub const EQUALS: u8 = 61;

/// The entries of `s[i..]`, each as the offsets of its line's start, of its
/// equals sign and of its line's end.
pub open spec fn entries(s: Seq<u8>, i: int) -> Seq<(int, int, int)>
    decreases s.len() - i,
{
    if i < 0 || i >= s.len() {
        Seq::empty()
    } else {
        let end = scan(s, i, s.len() as int, NEWLINE, NEWLINE);
        let eq = scan(s, i, end, EQUALS, EQUALS);
        let rest = if i <= end < s.len() {
            entries(s, end + 1)
        } else {
            Seq::empty()
        };
        if eq == i || eq >= end {
            rest
        } else {
            seq![(i, eq, end)] + rest
        }
    }
}

/// `v` is the value that `s[start..end]` writes.
pub open spec fn value_is(v: Value, s: Seq<u8>, start: int, end: int) -> bool {
    match number(s, start, end) {
        Some(n) => v == Value::Integer(n as i64),
        None => v matches Value::Text(t) && t@ == s.subrange(start, end),
    }
}

/// `fields` are the entries `lines` of the text `s`, in their order.
pub open spec fn reads(fields: Seq<Field>, s: Seq<u8>, lines: Seq<(int, int, int)>) -> bool {
    &&& fields.len() == lines.len()
    &&& forall|k: int|
        0 <= k < fields.len() ==> (#[trigger] fields[k]).path@ == s.subrange(
            lines[k].0,
            lines[k].1,
        ) && value_is(fields[k].value, s, lines[k].1 + 1, lines[k].2)
}

/// Reads the value that `s[start..end]` writes.
pub fn parse_value(s: &[u8], start: usize, end: usize) -> (v: Value)
    requires
        start <= end <= s@.len(),
    ensures
        value_is(v, s@, start as int, end as int),
{
    match parse_number(s, start, end) {
        Some(n) => Value::Integer(n),
        None => {
            let mut t: Vec<u8> = Vec::new();
            copy_bytes(&mut t, s, start, end);
            assert(t@ =~= s@.subrange(start as int, end as int));
            Value::Text(t)
        },
    }
}

/// Reads a stored payload. Every text is a payload: lines that are not
/// entries are passed over.
pub fn parse_document(s: &[u8]) -> (doc: Document)
    ensures
        reads(doc.fields@, s@, entries(s@, 0)),
{
    let n: usize = s.len();
    let mut fields: Vec<Field> = Vec::new();
    let ghost mut lines: Seq<(int, int, int)> = Seq::empty();
    let mut i: usize = 0;
    assert(lines + entries(s@, 0) =~= entries(s@, 0));
    while i < n
        invariant
            i <= n,
            n == s@.len(),
            reads(fields@, s@, lines),
            entries(s@, 0) == lines + entries(s@, i as int),
        decreases n - i,
    {
        let end: usize = find(s, i, n, NEWLINE, NEWLINE);
        let eq: usize = find(s, i, end, EQUALS, EQUALS);
        let ghost rest = if end < n {
            entries(s@, end + 1)
        } else {
            Seq::empty()
        };
        if eq != i && eq < end {
            let mut path: Vec<u8> = Vec::new();
            copy_bytes(&mut path, s, i, eq);
            assert(path@ =~= s@.subrange(i as int, eq as int));
            let value = parse_value(s, eq + 1, end);
            fields.push(Field { path, value });
            proof {
                let line = (i as int, eq as int, end as int);
                assert((lines + seq![line]) + rest =~= lines + (seq![line] + rest));
                lines = lines + seq![line];
            }
        }
        if end >= n {
            i = n;
        } else {
            i = end + 1;
        }
    }
    assert(lines + entries(s@, n as int) =~= lines);
    Document { fields }
}

} // verus!
