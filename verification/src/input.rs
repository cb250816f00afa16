//! Splitting read lines into header and body records.
use vstd::prelude::*;

use crate::config::HeaderSpec;
use crate::text::{is_blank, str_is_blank};

verus! {

/// Records read from the input: the retained header lines and the body to
/// sort.
#[derive(Debug)]
pub struct Input {
    pub headers: Vec<String>,
    pub body: Vec<String>,
}

/// The lines of `lines` that are not blank, in order.
pub open spec fn non_blank_lines(lines: Seq<String>) -> Seq<String>
    decreases lines.len(),
{
    if lines.len() == 0 {
        Seq::empty()
    } else if is_blank(lines.last()@) {
        non_blank_lines(lines.drop_last())
    } else {
        non_blank_lines(lines.drop_last()).push(lines.last())
    }
}

/// How many leading lines of a source of `n` lines are its header.
pub open spec fn header_count(spec: HeaderSpec, n: nat) -> nat {
    if spec.lines < n {
        spec.lines as nat
    } else {
        n
    }
}

/// Splits one source's lines into header and body.
///
/// The first `spec.lines` lines are the header region: appended to
/// `headers` when `spec.keep` is set, else dropped. The remaining lines
/// that are not blank are appended to `body`.
pub fn split_header(lines: Vec<String>, spec: &HeaderSpec, headers: &mut Vec<String>, body: &mut Vec<String>)
    ensures
        final(headers)@ == old(headers)@ + if spec.keep {
            lines@.take(header_count(*spec, lines@.len()) as int)
        } else {
            Seq::empty()
        },
        final(body)@ == old(body)@ + non_blank_lines(
            lines@.skip(header_count(*spec, lines@.len()) as int),
        ),
{
    let count = if spec.lines < lines.len() {
        spec.lines
    } else {
        lines.len()
    };
    let mut i: usize = 0;
    while i < count
        invariant
            i <= count,
            count == header_count(*spec, lines@.len()),
            count <= lines@.len(),
            headers@ == old(headers)@ + if spec.keep {
                lines@.take(i as int)
            } else {
                Seq::empty()
            },
            body@ == old(body)@,
        decreases count - i,
    {
        if spec.keep {
            headers.push(lines[i].clone());
            assert(lines@.take(i + 1) =~= lines@.take(i as int).push(lines@[i as int]));
        }
        i += 1;
    }
    let ghost rest = lines@.skip(count as int);
    let mut j: usize = count;
    assert(rest.take(0) =~= Seq::<String>::empty());
    while j < lines.len()
        invariant
            count <= j <= lines.len(),
            rest == lines@.skip(count as int),
            body@ == old(body)@ + non_blank_lines(rest.take(j - count)),
        decreases lines.len() - j,
    {
        let ghost prefix = rest.take(j - count);
        assert(rest.take(j - count + 1) =~= prefix.push(lines@[j as int]));
        assert(rest.take(j - count + 1).drop_last() =~= prefix);
        if !str_is_blank(lines[j].as_str()) {
            body.push(lines[j].clone());
            assert(body@ =~= old(body)@ + non_blank_lines(rest.take(j - count + 1)));
        }
        j += 1;
    }
    assert(rest.take(j - count) =~= rest);
}

/// The body of an inline text source: the items that are not blank.
/// Header handling does not apply to inline text.
pub fn text_input(items: &Vec<String>) -> (input: Input)
    ensures
        input.headers@.len() == 0,
        input.body@ == non_blank_lines(items@),
{
    let mut body: Vec<String> = Vec::new();
    let mut i: usize = 0;
    while i < items.len()
        invariant
            i <= items.len(),
            body@ == non_blank_lines(items@.take(i as int)),
        decreases items.len() - i,
    {
        assert(items@.take(i + 1).drop_last() =~= items@.take(i as int));
        if !str_is_blank(items[i].as_str()) {
            body.push(items[i].clone());
        }
        i += 1;
    }
    assert(items@.take(i as int) =~= items@);
    Input { headers: Vec::new(), body }
}

} // verus!
