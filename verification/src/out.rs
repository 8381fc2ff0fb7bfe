//! The status-bar payload: the fields a bar's custom module understands,
//! with their text HTML-escaped.  Serialising and printing the payload is the
//! embedding layer's job.

use vstd::prelude::*;

verus! {

/// `s` with `&`, `<` and `>` replaced by their HTML entities.
pub open spec fn html_escaped(s: Seq<char>) -> Seq<char>
    decreases s.len(),
{
    if s.len() == 0 {
        s
    } else {
        let head = if s[0] == '&' {
            seq!['&', 'a', 'm', 'p', ';']
        } else if s[0] == '<' {
            seq!['&', 'l', 't', ';']
        } else if s[0] == '>' {
            seq!['&', 'g', 't', ';']
        } else {
            seq![s[0]]
        };
        head + html_escaped(s.skip(1))
    }
}

/// Relies on `html_escape::encode_text`: escapes `&`, `<` and `>` as HTML
/// entities and leaves every other character alone.
#[verifier::external_body]
fn encode_text(s: &str) -> (r: String)
    ensures
        r@ == html_escaped(s@),
{
    html_escape::encode_text(s).into_owned()
}

/// One update for the status bar, every text field already escaped.
#[derive(Debug, Clone, PartialEq, Eq)]
pub struct WaybarCustomModule {
    pub text: Option<String>,
    pub alt: Option<String>,
    pub tooltip: Option<String>,
    pub class: Option<String>,
    pub percentage: Option<usize>,
}

/// What one optional field holds after construction.
pub open spec fn escaped_field(field: Option<String>, arg: Option<&str>) -> bool {
    match (field, arg) {
        (Some(f), Some(a)) => f@ == html_escaped(a@),
        (None, None) => true,
        _ => false,
    }
}

impl WaybarCustomModule {
    /// Build an update with the given contents, escaping each text field.
    pub fn new(
        text: Option<&str>,
        alt: Option<&str>,
        tooltip: Option<&str>,
        class: Option<&str>,
        percentage: Option<usize>,
    ) -> (r: WaybarCustomModule)
        ensures
            escaped_field(r.text, text),
            escaped_field(r.alt, alt),
            escaped_field(r.tooltip, tooltip),
            escaped_field(r.class, class),
            r.percentage == percentage,
    {
        WaybarCustomModule {
            text: match text {
                Some(s) => Some(encode_text(s)),
                None => None,
            },
            alt: match alt {
                Some(s) => Some(encode_text(s)),
                None => None,
            },
            tooltip: match tooltip {
                Some(s) => Some(encode_text(s)),
                None => None,
            },
            class: match class {
                Some(s) => Some(encode_text(s)),
                None => None,
            },
            percentage,
        }
    }

    /// The blank update that clears the display.
    pub fn empty() -> (r: WaybarCustomModule)
        ensures
            r.text is None,
            r.alt is None,
            r.tooltip is None,
            r.class is None,
            r.percentage is None,
    {
        WaybarCustomModule { text: None, alt: None, tooltip: None, class: None, percentage: None }
    }
}

} // verus!
