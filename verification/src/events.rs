//! The events that the program prints for the user interface: JSON objects, one
//! on each line.
use crate::json;
use crate::links;
use vstd::prelude::*;

verus! {

/// The text that `serde_json` writes for an object whose fields are strings.
pub uninterp spec fn object_text(fields: Seq<(Seq<char>, Seq<char>)>) -> Seq<char>;

/// No field is given twice.
pub open spec fn distinct(fields: Seq<(Seq<char>, Seq<char>)>) -> bool {
    forall|i: int, j: int|
        0 <= i < j < fields.len() ==> (#[trigger] fields[i]).0 != (#[trigger] fields[j]).0
}

/// A document that is an object and has these strings as fields.
pub open spec fn holds(document: json::JsonView, fields: Seq<(Seq<char>, Seq<char>)>) -> bool {
    forall|i: int|
        0 <= i < fields.len() ==> document.get((#[trigger] fields[i]).0) == Some(
            json::JsonView::Text(fields[i].1),
        )
}

/// Makes a `serde_json::Value` of the fields and calls its `to_string`. The result
/// depends on the fields alone. It has no line feed, because control characters
/// are escaped; and `serde_json::from_str` reads the fields back from it.
#[verifier::external_body]
fn write_object(fields: &Vec<(String, String)>) -> (r: String)
    requires
        distinct(links::pair_views(fields@)),
    ensures
        r@ == object_text(links::pair_views(fields@)),
        !r@.contains('\n'),
        json::document_of_text(r@) is Some,
        holds(json::document_of_text(r@)->0, links::pair_views(fields@)),
{
    let fields = fields.iter().map(|f| (f.0.clone(), serde_json::Value::String(f.1.clone())));
    serde_json::Value::Object(fields.collect()).to_string()
}

/// The fields of an event of a type with a message.
pub open spec fn event_fields(kind: Seq<char>, message: Seq<char>) -> Seq<
    (Seq<char>, Seq<char>),
> {
    seq![("type"@, kind), ("message"@, message)]
}

/// The line of an event: it is one line, and whoever reads it as JSON finds the
/// fields.
pub open spec fn is_event(line: Seq<char>, fields: Seq<(Seq<char>, Seq<char>)>) -> bool {
    &&& line == object_text(fields)
    &&& !line.contains('\n')
    &&& json::document_of_text(line) is Some
    &&& holds(json::document_of_text(line)->0, fields)
}

fn event(kind: &str, message: &str) -> (r: String)
    ensures
        is_event(r@, event_fields(kind@, message@)),
{
    let mut fields: Vec<(String, String)> = Vec::new();
    fields.push(("type".to_owned(), kind.to_owned()));
    fields.push(("message".to_owned(), message.to_owned()));
    assert(links::pair_views(fields@) =~= event_fields(kind@, message@));
    proof {
        reveal_strlit("type");
        reveal_strlit("message");
        assert("type"@.len() != "message"@.len());
    }
    write_object(&fields)
}

/// The line that tells the user what happens.
pub fn status(message: &str) -> (r: String)
    ensures
        is_event(r@, event_fields("status"@, message@)),
{
    event("status", message)
}

/// The line that tells the user what went wrong.
pub fn error(message: &str) -> (r: String)
    ensures
        is_event(r@, event_fields("error"@, message@)),
{
    event("error", message)
}

/// The line after a login.
pub fn login_done() -> (r: String)
    ensures
        is_event(
            r@,
            event_fields(
                "done"@,
                "Metadata connected. You can now download tracks with artwork and tags."@,
            ),
        ),
{
    event("done", "Metadata connected. You can now download tracks with artwork and tags.")
}

/// The line that gives the user the link to sign in.
pub fn login_url(url: &str) -> (r: String)
    ensures
        is_event(
            r@,
            seq![
                ("type"@, "login_url"@),
                ("url"@, url@),
                ("message"@, "Open this URL to sign in with Spotify"@),
            ],
        ),
{
    let mut fields: Vec<(String, String)> = Vec::new();
    fields.push(("type".to_owned(), "login_url".to_owned()));
    fields.push(("url".to_owned(), url.to_owned()));
    fields.push(("message".to_owned(), "Open this URL to sign in with Spotify".to_owned()));
    assert(links::pair_views(fields@) =~= seq![
        ("type"@, "login_url"@),
        ("url"@, url@),
        ("message"@, "Open this URL to sign in with Spotify"@),
    ]);
    proof {
        reveal_strlit("type");
        reveal_strlit("url");
        reveal_strlit("message");
        assert("type"@.len() != "message"@.len());
        assert("type"@.len() != "url"@.len());
        assert("url"@.len() != "message"@.len());
    }
    write_object(&fields)
}

} // verus!
