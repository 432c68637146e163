//! The status page: which request asks for what, and how it is answered.
use vstd::prelude::*;
use vstd::slice::slice_subrange;
use vstd::utf8::encode_utf8;
use crate::codec::{law_text_is_read_back, law_text_is_read_first, text_of, utf8_text};
use crate::number::{decimal, to_decimal};
use crate::sip::line;
use crate::state::State;
use crate::text::{
    begins, chars, count_prefix, ends, ends_with, is_space, is_word, law_lines_end_at_line_feeds,
    lemma_first_line,
    lemma_first_word, lemma_prefix_len, lines, prefix_len, same, split_lines,
    split_words, string, views, words, Class,
};

verus! {

/// What a request asks for.
#[derive(Debug, Clone, Copy, PartialEq, Eq, Structural)]
pub enum Route {
    /// The daemon's state.
    Status,
    /// A registration.
    Register,
    /// That the registration be given up.
    Unregister,
    /// The page.
    Page,
}

/// The first line of a request.
pub open spec fn request_line(req: Seq<char>) -> Seq<char> {
    if lines(req).len() > 0 {
        lines(req)[0]
    } else {
        seq![]
    }
}

/// What the request line asks for: its second word, or the root.
pub open spec fn target(req: Seq<char>) -> Seq<char> {
    let ws = words(request_line(req));
    if ws.len() > 1 {
        ws[1]
    } else {
        "/"@
    }
}

/// A target without its query.
pub open spec fn without_query(target: Seq<char>) -> Seq<char> {
    target.take(prefix_len(target, Class::IsNot('?')) as int)
}

/// The path that a request asks for.
pub open spec fn path_of(req: Seq<char>) -> Seq<char> {
    without_query(target(req))
}

/// Reads the path out of the text of a request.
pub fn request_path(req: &str) -> (r: String)
    ensures
        r@ == path_of(req@),
{
    let ls: Vec<Vec<char>> = split_lines(&chars(req));
    let line: Vec<char> = if ls.len() > 0 { first_line(&ls) } else { Vec::new() };
    assert(line@ =~= request_line(req@));
    let ws: Vec<Vec<char>> = split_words(&line);
    if ws.len() > 1 {
        assert(views(ws@)[1] == ws@[1]@);
        let n: usize = count_prefix(&ws[1], Class::IsNot('?'));
        string(slice_subrange(&ws[1], 0, n))
    } else {
        let root: Vec<char> = chars("/");
        let n: usize = count_prefix(&root, Class::IsNot('?'));
        string(slice_subrange(&root, 0, n))
    }
}

fn first_line(ls: &Vec<Vec<char>>) -> (r: Vec<char>)
    requires
        ls@.len() > 0,
    ensures
        r@ == views(ls@)[0],
{
    crate::text::to_chars(&ls[0])
}

/// Reads the path out of a request.
pub fn read_path(req: &[u8]) -> (r: String)
    ensures
        r@ == path_of(utf8_text(req@)),
{
    request_path(&text_of(req))
}

/// Serves a request as far as the state alone answers it: tells the path and
/// what it asks for, and gives the registration up if that is asked. Nothing
/// else that is asked changes the state.
pub fn serve(st: &mut State, req: &[u8]) -> (r: (String, Route))
    ensures
        r.0@ == path_of(utf8_text(req@)),
        r.1 == route_of(r.0@),
        final(st)@ == (if r.1 is Unregister {
            old(st)@.unregistered()
        } else {
            old(st)@
        }),
{
    let path: String = read_path(req);
    let asked: Route = route(&path);
    match asked {
        Route::Unregister => st.unregister(),
        _ => {},
    }
    (path, asked)
}

/// What a path asks for.
pub open spec fn route_of(path: Seq<char>) -> Route {
    if path == "/api/ims/status"@ {
        Route::Status
    } else if path == "/api/ims/register"@ {
        Route::Register
    } else if path == "/api/ims/unregister"@ {
        Route::Unregister
    } else {
        Route::Page
    }
}

/// Tells what a path asks for.
pub fn route(path: &str) -> (r: Route)
    ensures
        r == route_of(path@),
{
    let p: Vec<char> = chars(path);
    if same(&p, &chars("/api/ims/status")) {
        Route::Status
    } else if same(&p, &chars("/api/ims/register")) {
        Route::Register
    } else if same(&p, &chars("/api/ims/unregister")) {
        Route::Unregister
    } else {
        Route::Page
    }
}

/// The type of the answer's body.
pub open spec fn content_type(path: Seq<char>) -> Seq<char> {
    if ends(path, ".js"@) {
        "application/javascript"@
    } else if route_of(path) is Page {
        "text/html; charset=utf-8"@
    } else {
        "application/json"@
    }
}

/// The answer's body, given the state in JSON and the page.
pub open spec fn body_of(path: Seq<char>, status: Seq<char>, page: Seq<char>) -> Seq<char> {
    match route_of(path) {
        Route::Status => status,
        Route::Register => "{\"ok\":true,\"msg\":\"registering\"}"@,
        Route::Unregister => "{\"ok\":true}"@,
        Route::Page => page,
    }
}

/// An answer: its head, with the length of the body in bytes, and the body.
pub open spec fn message(ctype: Seq<char>, body: Seq<char>) -> Seq<char> {
    "HTTP/1.1 200\r\ncontent-type: "@ + ctype + "\r\ncontent-length: "@ + decimal(
        encode_utf8(body).len(),
    ) + "\r\n\r\n"@ + body
}

/// Answers a request for a path, given the state in JSON and the page.
pub fn respond(path: &str, status: &str, page: &str) -> (r: String)
    ensures
        r@ == message(content_type(path@), body_of(path@, status@, page@)),
{
    let asked: Route = route(path);
    let ctype: &str = if ends_with(&chars(path), &chars(".js")) {
        "application/javascript"
    } else {
        match asked {
            Route::Page => "text/html; charset=utf-8",
            _ => "application/json",
        }
    };
    let body: &str = match asked {
        Route::Status => status,
        Route::Register => "{\"ok\":true,\"msg\":\"registering\"}",
        Route::Unregister => "{\"ok\":true}",
        Route::Page => page,
    };
    let mut r: String = "HTTP/1.1 200\r\ncontent-type: ".to_owned();
    r.append(ctype);
    r.append("\r\ncontent-length: ");
    r.append(&to_decimal(body.as_bytes().len() as u64));
    r.append("\r\n\r\n");
    r.append(body);
    r
}

/// An answer succeeds and ends with its body, whose length in bytes it names.
pub proof fn law_answer_carries_its_body(ctype: Seq<char>, body: Seq<char>)
    ensures
        begins(message(ctype, body), "HTTP/1.1 200\r\n"@),
        ends(
            message(ctype, body),
            "\r\ncontent-length: "@ + decimal(encode_utf8(body).len()) + "\r\n\r\n"@ + body,
        ),
{
    let m = message(ctype, body);
    let tail = "\r\ncontent-length: "@ + decimal(encode_utf8(body).len()) + "\r\n\r\n"@ + body;
    let first = "HTTP/1.1 200\r\n"@;
    let start = "HTTP/1.1 200\r\ncontent-type: "@;
    reveal_strlit("HTTP/1.1 200\r\n");
    reveal_strlit("HTTP/1.1 200\r\ncontent-type: ");
    assert(start.take(first.len() as int) =~= first);
    assert(m.take(first.len() as int) =~= start.take(first.len() as int));
    assert(m =~= start + ctype + tail);
    assert(m.skip(m.len() - tail.len()) =~= tail);
}

/// A query changes nothing of what a path asks for.
pub proof fn law_query_does_not_count(path: Seq<char>, query: Seq<char>)
    requires
        forall|i: int| 0 <= i < path.len() ==> #[trigger] path[i] != '?',
    ensures
        without_query(path + seq!['?'] + query) == path,
        without_query(path) == path,
{
    let k = Class::IsNot('?');
    let t = path + seq!['?'] + query;
    assert forall|i: int| 0 <= i < path.len() implies k.has(#[trigger] t[i]) by {
        assert(t[i] == path[i]);
    }
    crate::text::lemma_prefix_len_unique(t, k, path.len());
    assert(t.take(path.len() as int) =~= path);
    assert forall|i: int| 0 <= i < path.len() implies k.has(#[trigger] path[i]) by {}
    crate::text::lemma_prefix_len_unique(path, k, path.len());
    assert(path.take(path.len() as int) =~= path);
}

/// White space within a line.
pub open spec fn is_gap(s: Seq<char>) -> bool {
    forall|i: int| 0 <= i < s.len() ==> is_space(#[trigger] s[i]) && s[i] != '\n'
}

/// The target is the second word of the request line, whatever the first word
/// is and whatever follows the target.
pub proof fn law_only_the_target_counts(
    lead: Seq<char>,
    method: Seq<char>,
    gap: Seq<char>,
    t: Seq<char>,
    rest: Seq<char>,
)
    requires
        is_gap(lead),
        is_word(method),
        is_gap(gap),
        gap.len() > 0,
        is_word(t),
        rest.len() > 0 ==> is_space(rest[0]),
    ensures
        target(lead + method + gap + t + rest) == t,
{
    let head = lead + method + gap + t;
    assert forall|i: int| 0 <= i < head.len() implies #[trigger] head[i] != '\n' by {
        let a = lead.len() as int;
        let b = a + method.len();
        let c = b + gap.len();
        if i < a {
            assert(head[i] == lead[i]);
        } else if i < b {
            assert(head[i] == method[i - a]);
        } else if i < c {
            assert(head[i] == gap[i - b]);
        } else {
            assert(head[i] == t[i - c]);
        }
    }
    assert(head.last() == t[t.len() - 1]);
    let tail = lemma_first_line(head, rest);
    if tail.len() > 0 {
        assert(tail[0] == rest.take(tail.len() as int)[0]);
        assert(tail[0] == rest[0]);
    }
    let behind = gap + t + tail;
    assert(head + tail =~= lead + method + behind);
    assert(behind[0] == gap[0]);
    lemma_first_word(lead, method, behind);
    lemma_first_word(gap, t, tail);
    assert(words(head + tail)[1] == t);
}

/// What the target of a path with or without a query is.
pub open spec fn with_query(path: Seq<char>, query: Option<Seq<char>>) -> Seq<char> {
    match query {
        Some(q) => path + seq!['?'] + q,
        None => path,
    }
}

/// What a request asks for depends on its path alone: neither on the method
/// word, nor on the query, nor on the bytes that follow the target, be they
/// UTF-8 or not. So `serve` gives the same and leaves the same state for any
/// two requests with one path.
pub proof fn law_only_the_path_counts(
    lead: Seq<char>,
    method: Seq<char>,
    gap: Seq<char>,
    path: Seq<char>,
    query: Option<Seq<char>>,
    stop: char,
    rest: Seq<u8>,
)
    requires
        is_gap(lead),
        is_word(method),
        is_gap(gap),
        gap.len() > 0,
        is_word(with_query(path, query)),
        forall|i: int| 0 <= i < path.len() ==> #[trigger] path[i] != '?',
        is_space(stop),
    ensures
        path_of(
            utf8_text(
                encode_utf8(
                    lead + method + gap + with_query(path, query) + seq![stop],
                ) + rest,
            ),
        ) == path,
        path_of(
            utf8_text(encode_utf8(lead + method + gap + with_query(path, query))),
        ) == path,
{
    let t = with_query(path, query);
    let head = lead + method + gap + t;
    let s = utf8_text(encode_utf8(head + seq![stop]) + rest);
    law_text_is_read_first(head + seq![stop], rest);
    let tail = seq![stop] + s.skip(head.len() as int + 1);
    assert(s =~= s.take(head.len() as int + 1) + s.skip(head.len() as int + 1));
    assert((head + seq![stop]) + s.skip(head.len() as int + 1) =~= head + tail);
    law_only_the_target_counts(lead, method, gap, t, tail);
    law_text_is_read_back(head);
    law_only_the_target_counts(lead, method, gap, t, seq![]);
    assert(head + Seq::<char>::empty() =~= head);
    match query {
        Some(q) => law_query_does_not_count(path, q),
        None => law_query_does_not_count(path, seq![]),
    }
}

/// The path of a request holds no query.
pub proof fn law_path_has_no_query(req: Seq<char>)
    ensures
        forall|i: int| 0 <= i < path_of(req).len() ==> #[trigger] path_of(req)[i] != '?',
{
    let t = target(req);
    lemma_prefix_len(t, Class::IsNot('?'));
    assert forall|i: int| 0 <= i < path_of(req).len() implies #[trigger] path_of(req)[i] != '?' by {
        assert(path_of(req)[i] == t[i]);
        assert(Class::IsNot('?').has(t[i]));
    }
}

/// Only the page may be a script: what the daemon is asked to do is answered
/// in JSON.
pub proof fn law_api_answers_in_json(path: Seq<char>)
    requires
        !(route_of(path) is Page),
    ensures
        content_type(path) == "application/json"@,
{
    reveal_strlit(".js");
    reveal_strlit("/api/ims/status");
    reveal_strlit("/api/ims/register");
    reveal_strlit("/api/ims/unregister");
    if ends(path, ".js"@) {
        assert(path.skip(path.len() - 3)[2] == path[path.len() - 1]);
        assert(".js"@[2] == 's');
        assert(path.skip(path.len() - 3)[1] == path[path.len() - 2]);
        assert(".js"@[1] == 'j');
    }
}

/// A request without a second word in its first line asks for the root.
pub proof fn law_short_requests_ask_for_the_root(req: Seq<char>)
    requires
        lines(req).len() == 0 || words(lines(req)[0]).len() <= 1,
    ensures
        path_of(req) == seq!['/'],
{
    reveal_strlit("/");
    assert("/"@ =~= seq!['/']);
    reveal_with_fuel(words, 2);
    law_query_does_not_count(seq!['/'], seq![]);
}

/// Only the first line of a request counts.
pub proof fn law_only_the_first_line_counts(line: Seq<char>, a: Seq<char>, b: Seq<char>)
    requires
        forall|i: int| 0 <= i < line.len() ==> #[trigger] line[i] != '\n',
    ensures
        path_of(line + seq!['\r', '\n'] + a) == path_of(line + seq!['\r', '\n'] + b),
        line.len() > 0 ==> path_of(line + seq!['\r', '\n'] + a) == path_of(line),
{
    law_lines_end_at_line_feeds(line, a);
    law_lines_end_at_line_feeds(line, b);
}

/// Three paths ask for something of the daemon, each for its own; every other
/// path asks for the page.
pub proof fn law_three_paths_ask_for_something(path: Seq<char>)
    ensures
        route_of(path) is Status <==> path == "/api/ims/status"@,
        route_of(path) is Register <==> path == "/api/ims/register"@,
        route_of(path) is Unregister <==> path == "/api/ims/unregister"@,
        route_of(path) is Page <==> path != "/api/ims/status"@ && path != "/api/ims/register"@
            && path != "/api/ims/unregister"@,
{
    reveal_strlit("/api/ims/status");
    reveal_strlit("/api/ims/register");
    reveal_strlit("/api/ims/unregister");
    assert("/api/ims/status"@.len() == 15);
    assert("/api/ims/register"@.len() == 17);
    assert("/api/ims/unregister"@.len() == 19);
}

/// A path that ends with `.js` is answered as a script, whatever it asks for;
/// otherwise the page is answered as HTML and everything else as JSON.
pub proof fn law_types_of_answers(path: Seq<char>)
    ensures
        ({
            let n = path.len() as int;
            if n >= 3 && path[n - 3] == '.' && path[n - 2] == 'j' && path[n - 1] == 's' {
                content_type(path) == "application/javascript"@
            } else if path == "/api/ims/status"@ || path == "/api/ims/register"@ || path
                == "/api/ims/unregister"@ {
                content_type(path) == "application/json"@
            } else {
                content_type(path) == "text/html; charset=utf-8"@
            }
        }),
{
    let n = path.len() as int;
    reveal_strlit(".js");
    if n >= 3 {
        let t = path.skip(n - 3);
        assert(t[0] == path[n - 3] && t[1] == path[n - 2] && t[2] == path[n - 1]);
        if path[n - 3] == '.' && path[n - 2] == 'j' && path[n - 1] == 's' {
            assert(t =~= ".js"@);
        }
    }
    law_three_paths_ask_for_something(path);
}

/// What is asked for the state gets it; what asks for a registration, or to give
/// it up, gets a word that this was done; everything else gets the page.
pub proof fn law_bodies_of_answers(path: Seq<char>, status: Seq<char>, page: Seq<char>)
    ensures
        path == "/api/ims/status"@ ==> body_of(path, status, page) == status,
        path == "/api/ims/register"@ ==> body_of(path, status, page)
            == "{\"ok\":true,\"msg\":\"registering\"}"@,
        path == "/api/ims/unregister"@ ==> body_of(path, status, page) == "{\"ok\":true}"@,
        path != "/api/ims/status"@ && path != "/api/ims/register"@ && path
            != "/api/ims/unregister"@ ==> body_of(path, status, page) == page,
{
    law_three_paths_ask_for_something(path);
}

/// An answer is three lines, an empty line and its body: the status, the type
/// of the body and its length in bytes.
pub proof fn law_lines_of_an_answer(ctype: Seq<char>, body: Seq<char>)
    ensures
        message(ctype, body) == line("HTTP/1.1 200"@) + line("content-type: "@ + ctype) + line(
            "content-length: "@ + decimal(encode_utf8(body).len()),
        ) + line(seq![]) + body,
{
    let n = decimal(encode_utf8(body).len());
    assert("HTTP/1.1 200\r\ncontent-type: "@ =~= "HTTP/1.1 200"@ + "\r\n"@ + "content-type: "@) by {
        reveal_strlit("HTTP/1.1 200\r\ncontent-type: ");
        reveal_strlit("HTTP/1.1 200");
        reveal_strlit("\r\n");
        reveal_strlit("content-type: ");
    }
    assert("\r\ncontent-length: "@ =~= "\r\n"@ + "content-length: "@) by {
        reveal_strlit("\r\ncontent-length: ");
        reveal_strlit("\r\n");
        reveal_strlit("content-length: ");
    }
    assert("\r\n\r\n"@ =~= "\r\n"@ + (Seq::<char>::empty() + "\r\n"@)) by {
        reveal_strlit("\r\n\r\n");
        reveal_strlit("\r\n");
    }
    let first = line("HTTP/1.1 200"@);
    let second = "content-type: "@ + ctype;
    let third = "content-length: "@ + n;
    assert("HTTP/1.1 200\r\ncontent-type: "@ + ctype =~= first + second);
    assert("HTTP/1.1 200\r\ncontent-type: "@ + ctype + "\r\ncontent-length: "@ + n =~= first
        + line(second) + third);
    assert("HTTP/1.1 200\r\ncontent-type: "@ + ctype + "\r\ncontent-length: "@ + n
        + "\r\n\r\n"@ =~= first + line(second) + line(third) + line(seq![]));
}

} // verus!
