use vstd::prelude::*;

verus! {

/// The HTML form of one character: the three markup characters become
/// entities, every other character stands for itself.
pub open spec fn escape_char(c: char) -> Seq<char> {
    if c == '<' {
        seq!['&', 'l', 't', ';']
    } else if c == '>' {
        seq!['&', 'g', 't', ';']
    } else if c == '&' {
        seq!['&', 'a', 'm', 'p', ';']
    } else {
        seq![c]
    }
}

/// A text with each of its characters escaped for HTML.
pub open spec fn escaped(s: Seq<char>) -> Seq<char>
    decreases s.len(),
{
    if s.len() == 0 {
        Seq::empty()
    } else {
        escaped(s.drop_last()) + escape_char(s.last())
    }
}

/// The text that stands for a field the catalog left empty.
pub open spec fn none_text() -> Seq<char> {
    seq!['N', 'o', 'n', 'e']
}

/// What a free-text field of the catalog renders as.
pub open spec fn field_text(field: Option<Seq<char>>) -> Seq<char> {
    match field {
        Some(t) => escaped(t),
        None => none_text(),
    }
}

/// Relies on String::push: the character is added at the end.
#[verifier::external_body]
pub(crate) fn push_char(s: &mut String, c: char)
    ensures
        final(s)@ == old(s)@.push(c),
{
    s.push(c);
}

/// Escapes `<`, `>` and `&` to their HTML entities.
pub fn escape_html(s: &str) -> (r: String)
    ensures
        r@ == escaped(s@),
{
    let mut out = String::new();
    proof {
        reveal_strlit("&lt;");
        reveal_strlit("&gt;");
        reveal_strlit("&amp;");
        assert("&lt;"@ =~= escape_char('<'));
        assert("&gt;"@ =~= escape_char('>'));
        assert("&amp;"@ =~= escape_char('&'));
    }
    for c in it: s.chars()
        invariant
            it.seq() == s@,
            "&lt;"@ == escape_char('<'),
            "&gt;"@ == escape_char('>'),
            "&amp;"@ == escape_char('&'),
            out@ == escaped(s@.subrange(0, it.index() as int)),
    {
        let ghost done = s@.subrange(0, it.index() as int);
        let ghost next = s@.subrange(0, it.index() + 1);
        assert(next.drop_last() =~= done);
        assert(next.last() == c);
        if c == '<' {
            out.append("&lt;");
        } else if c == '>' {
            out.append("&gt;");
        } else if c == '&' {
            out.append("&amp;");
        } else {
            push_char(&mut out, c);
        }
        assert(out@ =~= escaped(next));
    }
    assert(s@.subrange(0, s@.len() as int) =~= s@);
    out
}

/// The text of an optional free-text field: `None` when it is missing,
/// else the field with its markup characters escaped.
pub fn null_to_none(field: Option<String>) -> (r: String)
    ensures
        r@ == field_text(
            match field {
                Some(t) => Some(t@),
                None => None,
            },
        ),
{
    match field {
        Some(t) => escape_html(t.as_str()),
        None => {
            proof {
                reveal_strlit("None");
            }
            let r = String::from_str("None");
            assert(r@ =~= none_text());
            r
        },
    }
}

} // verus!
