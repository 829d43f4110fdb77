//! Admin form payloads: adding quotes and replies, one at a time or in
//! bulk, and the error box a form renders on failure.
use vstd::prelude::*;

use crate::text;
use crate::text::trimmed;

verus! {

/// The position of the first line feed of `s`, or its length.
pub open spec fn first_nl(s: Seq<u8>) -> int
    decreases s.len(),
{
    if s.len() == 0 {
        0
    } else if s[0] == 0x0a {
        0
    } else {
        1 + first_nl(s.skip(1))
    }
}

/// The first line feed lies within the string.
proof fn lemma_first_nl_bounds(s: Seq<u8>)
    ensures
        0 <= first_nl(s) <= s.len(),
    decreases s.len(),
{
    if s.len() > 0 && s[0] != 0x0a {
        lemma_first_nl_bounds(s.skip(1));
    }
}

/// A line with one trailing carriage return removed.
pub open spec fn strip_cr(l: Seq<u8>) -> Seq<u8> {
    if l.len() > 0 && l.last() == 0x0d {
        l.drop_last()
    } else {
        l
    }
}

/// The entries a bulk form field names: the field split at line feeds,
/// each line stripped of one trailing carriage return, lines that are then
/// empty skipped, and each kept line trimmed of surrounding whitespace.
pub open spec fn spec_bulk_entries(s: Seq<u8>) -> Seq<Seq<u8>>
    decreases s.len(),
    via spec_bulk_entries_dec
{
    if s.len() == 0 {
        Seq::empty()
    } else {
        let i = first_nl(s);
        let line = strip_cr(s.take(i));
        let rest = if i < s.len() {
            spec_bulk_entries(s.skip(i + 1))
        } else {
            Seq::empty()
        };
        if line.len() != 0 {
            seq![trimmed(line)] + rest
        } else {
            rest
        }
    }
}

#[via_fn]
proof fn spec_bulk_entries_dec(s: Seq<u8>) {
    lemma_first_nl_bounds(s);
}

/// The line feed of a suffix is found exactly by a forward scan.
proof fn lemma_first_nl_at(s: Seq<u8>, i: int, j: int)
    requires
        0 <= i <= j <= s.len(),
        forall|k: int| i <= k < j ==> s[k] != 0x0a,
        j == s.len() || s[j] == 0x0a,
    ensures
        first_nl(s.skip(i)) == j - i,
    decreases j - i,
{
    if i < j {
        lemma_first_nl_at(s, i + 1, j);
        assert(s.skip(i)[0] == s[i]);
        assert(s.skip(i).skip(1) =~= s.skip(i + 1));
    } else {
        if j < s.len() {
            assert(s.skip(i)[0] == s[j]);
        }
    }
}

/// Splits a bulk form field into its entries: one per line, skipping
/// blank lines, each entry trimmed.
pub fn parse_bulk_entries(input: &[u8]) -> (r: Vec<Vec<u8>>)
    ensures
        r@.map_values(|v: Vec<u8>| v@) == spec_bulk_entries(input@),
{
    let n = input.len();
    let mut out: Vec<Vec<u8>> = Vec::new();
    let mut pos: usize = 0;
    proof {
        assert(input@.skip(0) =~= input@);
        assert(out@.map_values(|v: Vec<u8>| v@) =~= Seq::<Seq<u8>>::empty());
        assert(Seq::<Seq<u8>>::empty() + spec_bulk_entries(input@) =~= spec_bulk_entries(input@));
    }
    while pos < n
        invariant
            pos <= n,
            n == input@.len(),
            spec_bulk_entries(input@) == out@.map_values(|v: Vec<u8>| v@) + spec_bulk_entries(
                input@.skip(pos as int),
            ),
        decreases n - pos,
    {
        let ghost suffix = input@.skip(pos as int);
        let mut j = pos;
        while j < n && input[j] != 0x0a
            invariant
                pos <= j <= n,
                n == input@.len(),
                forall|k: int| pos <= k < j ==> input@[k] != 0x0a,
            decreases n - j,
        {
            j = j + 1;
        }
        proof {
            lemma_first_nl_at(input@, pos as int, j as int);
            assert(first_nl(suffix) == j - pos);
        }
        let line_end = if j > pos && input[j - 1] == 0x0d {
            j - 1
        } else {
            j
        };
        proof {
            assert(suffix.take(j - pos) =~= input@.subrange(pos as int, j as int));
            if j > pos && input@[j - 1] == 0x0d {
                assert(strip_cr(suffix.take(j - pos)) =~= input@.subrange(
                    pos as int,
                    line_end as int,
                ));
            } else {
                assert(strip_cr(suffix.take(j - pos)) =~= input@.subrange(
                    pos as int,
                    line_end as int,
                ));
            }
        }
        let ghost out0 = out@.map_values(|v: Vec<u8>| v@);
        if line_end > pos {
            let entry = text::trim_range(input, pos, line_end);
            out.push(entry);
            assert(out@.map_values(|v: Vec<u8>| v@) =~= out0 + seq![
                trimmed(input@.subrange(pos as int, line_end as int)),
            ]);
        }
        proof {
            let rest = if (j - pos) < suffix.len() {
                spec_bulk_entries(suffix.skip(j - pos + 1))
            } else {
                Seq::<Seq<u8>>::empty()
            };
            assert(spec_bulk_entries(suffix) == if strip_cr(suffix.take(j - pos)).len() != 0 {
                seq![trimmed(strip_cr(suffix.take(j - pos)))] + rest
            } else {
                rest
            });
            if (j - pos) < suffix.len() {
                assert(suffix.skip(j - pos + 1) =~= input@.skip(j + 1));
            } else {
                assert(input@.skip(n as int) =~= Seq::<u8>::empty());
            }
            assert(out@.map_values(|v: Vec<u8>| v@) + rest =~= out0 + spec_bulk_entries(suffix));
        }
        pos = if j < n {
            j + 1
        } else {
            n
        };
        proof {
            assert(spec_bulk_entries(input@) == out@.map_values(|v: Vec<u8>| v@)
                + spec_bulk_entries(input@.skip(pos as int)));
        }
    }
    proof {
        assert(input@.skip(n as int) =~= Seq::<u8>::empty());
        assert(spec_bulk_entries(Seq::<u8>::empty()) =~= Seq::<Seq<u8>>::empty());
        assert(out@.map_values(|v: Vec<u8>| v@) + Seq::<Seq<u8>>::empty() =~= out@.map_values(
            |v: Vec<u8>| v@,
        ));
    }
    out
}

/// A quote submission: a single quote, or one quote per line.
pub enum AddQuote {
    OneByOne { quote: String },
    Bulk { quote_bulk: String },
}

impl AddQuote {
    /// Whether the submission carries no text at all.
    pub fn is_empty(&self) -> (r: bool)
        ensures
            r == match self {
                AddQuote::OneByOne { quote } => quote@.len() == 0,
                AddQuote::Bulk { quote_bulk } => quote_bulk@.len() == 0,
            },
    {
        match self {
            AddQuote::OneByOne { quote } => quote.as_str().is_empty(),
            AddQuote::Bulk { quote_bulk } => quote_bulk.as_str().is_empty(),
        }
    }

    /// Whether the bulk mode was selected.
    pub fn is_bulk(&self) -> (r: bool)
        ensures
            r == (self is Bulk),
    {
        match self {
            AddQuote::OneByOne { .. } => false,
            AddQuote::Bulk { .. } => true,
        }
    }

    /// The single-quote input, empty in bulk mode.
    pub fn as_one_by_one(&self) -> (r: String)
        ensures
            r@ == match self {
                AddQuote::OneByOne { quote } => quote@,
                AddQuote::Bulk { .. } => Seq::<char>::empty(),
            },
    {
        match self {
            AddQuote::OneByOne { quote } => quote.clone(),
            AddQuote::Bulk { .. } => String::new(),
        }
    }

    /// The bulk input, empty in single mode.
    pub fn as_bulk(&self) -> (r: String)
        ensures
            r@ == match self {
                AddQuote::OneByOne { .. } => Seq::<char>::empty(),
                AddQuote::Bulk { quote_bulk } => quote_bulk@,
            },
    {
        match self {
            AddQuote::OneByOne { .. } => String::new(),
            AddQuote::Bulk { quote_bulk } => quote_bulk.clone(),
        }
    }
}

/// A reply submission: a keyword with one reply, or with one reply per
/// line.
pub enum AddReply {
    OneByOne { keyword: String, reply: String },
    Bulk { keyword: String, reply_bulk: String },
}

impl AddReply {
    /// Whether the keyword or the reply text is missing.
    pub fn is_empty(&self) -> (r: bool)
        ensures
            r == match self {
                AddReply::OneByOne { keyword, reply } => keyword@.len() == 0 || reply@.len() == 0,
                AddReply::Bulk { keyword, reply_bulk } => keyword@.len() == 0 || reply_bulk@.len()
                    == 0,
            },
    {
        match self {
            AddReply::OneByOne { keyword, reply } => keyword.as_str().is_empty()
                || reply.as_str().is_empty(),
            AddReply::Bulk { keyword, reply_bulk } => keyword.as_str().is_empty()
                || reply_bulk.as_str().is_empty(),
        }
    }

    /// Whether the bulk mode was selected.
    pub fn is_bulk(&self) -> (r: bool)
        ensures
            r == (self is Bulk),
    {
        match self {
            AddReply::OneByOne { .. } => false,
            AddReply::Bulk { .. } => true,
        }
    }

    /// The submitted keyword.
    pub fn keyword(&self) -> (r: String)
        ensures
            r@ == match self {
                AddReply::OneByOne { keyword, .. } => keyword@,
                AddReply::Bulk { keyword, .. } => keyword@,
            },
    {
        match self {
            AddReply::OneByOne { keyword, .. } => keyword.clone(),
            AddReply::Bulk { keyword, .. } => keyword.clone(),
        }
    }

    /// The single-reply input, empty in bulk mode.
    pub fn as_one_by_one(&self) -> (r: String)
        ensures
            r@ == match self {
                AddReply::OneByOne { reply, .. } => reply@,
                AddReply::Bulk { .. } => Seq::<char>::empty(),
            },
    {
        match self {
            AddReply::OneByOne { reply, .. } => reply.clone(),
            AddReply::Bulk { .. } => String::new(),
        }
    }

    /// The bulk input, empty in single mode.
    pub fn as_bulk(&self) -> (r: String)
        ensures
            r@ == match self {
                AddReply::OneByOne { .. } => Seq::<char>::empty(),
                AddReply::Bulk { reply_bulk, .. } => reply_bulk@,
            },
    {
        match self {
            AddReply::OneByOne { .. } => String::new(),
            AddReply::Bulk { reply_bulk, .. } => reply_bulk.clone(),
        }
    }
}

/// What a failed form action shows the operator: a short summary and, when
/// available, the underlying error's detail.
pub struct TemplateError {
    pub summary: String,
    pub detail: Option<String>,
}

} // verus!
