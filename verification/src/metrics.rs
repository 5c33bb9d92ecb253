//! How the metrics endpoint writes the labels of a series in the Prometheus
//! text format. Keeping the series themselves, whose gauges and histograms
//! hold floating-point values, is left to the caller.
use vstd::prelude::*;
use crate::text::{chars_of, push_char, push_str};

verus! {

broadcast use vstd::string::group_string_axioms;

/// How one character of a label value is written: a backslash, a double
/// quote and a line feed are escaped with a backslash.
pub open spec fn escape_char(c: char) -> Seq<char> {
    if c == '\\' {
        seq!['\\', '\\']
    } else if c == '"' {
        seq!['\\', '"']
    } else if c == '\n' {
        seq!['\\', 'n']
    } else {
        seq![c]
    }
}

/// A label value with each of its characters escaped.
pub open spec fn escaped(s: Seq<char>) -> Seq<char>
    decreases s.len(),
{
    if s.len() == 0 {
        seq![]
    } else {
        escaped(s.drop_last()) + escape_char(s.last())
    }
}

/// Escape a label value.
pub fn escape_label_value(value: &str) -> (r: String)
    ensures
        r@ == escaped(value@),
{
    let cs = chars_of(value);
    let mut out = String::new();
    let mut i: usize = 0;
    while i < cs.len()
        invariant
            i <= cs@.len(),
            cs@ == value@,
            out@ == escaped(cs@.take(i as int)),
        decreases cs@.len() - i,
    {
        let c = cs[i];
        proof {
            assert(cs@.take(i + 1).drop_last() =~= cs@.take(i as int));
            assert(cs@.take(i + 1).last() == c);
        }
        if c == '\\' {
            push_char(&mut out, '\\');
            push_char(&mut out, '\\');
        } else if c == '"' {
            push_char(&mut out, '\\');
            push_char(&mut out, '"');
        } else if c == '\n' {
            push_char(&mut out, '\\');
            push_char(&mut out, 'n');
        } else {
            push_char(&mut out, c);
        }
        proof {
            assert(out@ =~= escaped(cs@.take(i as int)) + escape_char(c));
        }
        i = i + 1;
    }
    proof {
        assert(cs@.take(cs@.len() as int) =~= cs@);
    }
    out
}

/// One label as written: its name, `="`, its escaped value and `"`.
pub open spec fn label_text(l: (Seq<char>, Seq<char>)) -> Seq<char> {
    l.0 + seq!['=', '"'] + escaped(l.1) + seq!['"']
}

/// Labels written in order and separated by commas.
pub open spec fn joined_labels(ls: Seq<(Seq<char>, Seq<char>)>) -> Seq<char>
    decreases ls.len(),
{
    if ls.len() == 0 {
        seq![]
    } else if ls.len() == 1 {
        label_text(ls[0])
    } else {
        joined_labels(ls.drop_last()) + seq![','] + label_text(ls.last())
    }
}

/// A label set as written after a series name: nothing when it is empty,
/// otherwise its labels in braces.
pub open spec fn spec_format_labels(ls: Seq<(Seq<char>, Seq<char>)>) -> Seq<char> {
    if ls.len() == 0 {
        seq![]
    } else {
        seq!['{'] + joined_labels(ls) + seq!['}']
    }
}

pub open spec fn label_views(ls: Seq<(String, String)>) -> Seq<(Seq<char>, Seq<char>)> {
    ls.map_values(|l: (String, String)| (l.0@, l.1@))
}

/// Write a label set, given in the order its names sort in.
pub fn format_labels(labels: &Vec<(String, String)>) -> (r: String)
    ensures
        r@ == spec_format_labels(label_views(labels@)),
{
    let ghost ls = label_views(labels@);
    if labels.len() == 0 {
        return String::new();
    }
    let mut out = String::new();
    push_char(&mut out, '{');
    let mut i: usize = 0;
    while i < labels.len()
        invariant
            0 < labels@.len(),
            i <= labels@.len(),
            ls == label_views(labels@),
            out@ == seq!['{'] + joined_labels(ls.take(i as int)),
        decreases labels@.len() - i,
    {
        let ghost before = out@;
        if i > 0 {
            push_char(&mut out, ',');
        }
        push_str(&mut out, labels[i].0.as_str());
        push_char(&mut out, '=');
        push_char(&mut out, '"');
        let v = escape_label_value(labels[i].1.as_str());
        push_str(&mut out, v.as_str());
        push_char(&mut out, '"');
        proof {
            let t = ls.take(i + 1);
            assert(t.drop_last() =~= ls.take(i as int));
            assert(t.last() == ls[i as int]);
            assert(ls[i as int] == (labels@[i as int].0@, labels@[i as int].1@));
            if i == 0 {
                assert(ls.take(0) =~= Seq::<(Seq<char>, Seq<char>)>::empty());
                assert(t.len() == 1 && t[0] == ls[0]);
                assert(out@ =~= seq!['{'] + label_text(ls[0]));
            } else {
                assert(out@ =~= before + seq![','] + label_text(ls[i as int]));
            }
        }
        i = i + 1;
    }
    push_char(&mut out, '}');
    proof {
        assert(ls.take(labels@.len() as int) =~= ls);
    }
    out
}

} // verus!
