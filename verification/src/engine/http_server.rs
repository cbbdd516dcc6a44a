//! The local SAML callback: what the browser's request line yields and what
//! it is answered. Binding and accepting connections is the caller's job.

use vstd::prelude::*;
use vstd::utf8::encode_utf8;
use crate::text::{
    before_first, before_first_chars, chars_of, decimal, find, find_chars, lemma_find_from_found,
    lines_view, push_decimal, push_str, slice_chars, split_words, string_of, words,
};

verus! {

broadcast use vstd::string::group_string_axioms;

/// Success page shown in the browser after the SAML callback. It tries to
/// close the tab; browsers that refuse fall back to a "you can close this
/// tab" message.
pub open spec fn spec_success_page() -> Seq<char> {
    "<!doctype html><html><head><meta charset=\"utf-8\"><title>VPN login</title>\
     <style>body{font-family:system-ui,sans-serif;text-align:center;padding:3rem;color:#222}\
     h1{color:#1a7f37}p{color:#555}</style></head>\
     <body>\
     <h1>&#10003; VPN login successful</h1>\
     <p id=\"m\">This tab will close automatically&hellip;</p>\
     <script>\
     (function(){\
       function bye(){try{window.open('','_self');window.close();}catch(e){}}\
       bye();\
       setTimeout(bye,200);\
       setTimeout(function(){document.getElementById('m').textContent='You can close this tab now.';},600);\
     })();\
     </script>\
     </body></html>"@
}

pub fn success_page() -> (page: String)
    ensures
        page@ == spec_success_page(),
{
    "<!doctype html><html><head><meta charset=\"utf-8\"><title>VPN login</title>\
     <style>body{font-family:system-ui,sans-serif;text-align:center;padding:3rem;color:#222}\
     h1{color:#1a7f37}p{color:#555}</style></head>\
     <body>\
     <h1>&#10003; VPN login successful</h1>\
     <p id=\"m\">This tab will close automatically&hellip;</p>\
     <script>\
     (function(){\
       function bye(){try{window.open('','_self');window.close();}catch(e){}}\
       bye();\
       setTimeout(bye,200);\
       setTimeout(function(){document.getElementById('m').textContent='You can close this tab now.';},600);\
     })();\
     </script>\
     </body></html>".to_string()
}

/// Looking up one query parameter in the callback URL.
pub enum ParamLookup {
    /// The parameter name does not occur.
    Absent,
    /// It occurs, but nothing follows it up to the next `&`.
    Stop,
    /// The first word of its value.
    Value(Seq<char>),
}

/// The value of the first occurrence of `param` (such as `id=`) in `url`:
/// up to the next `&`, first whitespace-separated word.
pub open spec fn lookup_param(url: Seq<char>, param: Seq<char>) -> ParamLookup {
    match find(url, param) {
        None => ParamLookup::Absent,
        Some(s) => {
            let w = words(before_first(url.skip(s + param.len()), '&'));
            if w.len() == 0 {
                ParamLookup::Stop
            } else {
                ParamLookup::Value(w[0])
            }
        },
    }
}

/// The session id carried by a callback request line such as
/// `GET /?id=SESSION_ID HTTP/1.1` or `GET /?auth_id=SESSION_ID&user=.. HTTP/1.1`:
/// the URL is the second word; `id=` is tried before `auth_id=`; an empty
/// value moves on to the next name, a parameter with nothing after it ends
/// the search.
pub open spec fn spec_extract_session_id(request_line: Seq<char>) -> Option<Seq<char>> {
    let ws = words(request_line);
    if ws.len() < 2 {
        None
    } else {
        let url = ws[1];
        let second = match lookup_param(url, "auth_id="@) {
            ParamLookup::Value(v) => if v.len() > 0 { Some(v) } else { None },
            _ => None,
        };
        match lookup_param(url, "id="@) {
            ParamLookup::Absent => second,
            ParamLookup::Stop => None,
            ParamLookup::Value(v) => if v.len() > 0 { Some(v) } else { second },
        }
    }
}

/// The exec form of `lookup_param`: `None` for `Absent`, `Some(None)` for `Stop`.
fn lookup_param_of(url: &[char], param: &str) -> (res: Option<Option<Vec<char>>>)
    ensures
        match lookup_param(url@, param@) {
            ParamLookup::Absent => res is None,
            ParamLookup::Stop => res == Some(None::<Vec<char>>),
            ParamLookup::Value(v) => res matches Some(Some(w)) && w@ == v,
        },
{
    let p = chars_of(param);
    let ul = url.len();
    proof { lemma_find_from_found(url@, p@, 0); }
    match find_chars(url, p.as_slice(), 0) {
        None => None,
        Some(s) => {
            let rest = slice_chars(url, s + p.len(), url.len());
            assert(rest@ =~= url@.skip(s + p@.len()));
            let piece = before_first_chars(rest.as_slice(), '&');
            let ws = split_words(piece.as_slice());
            if ws.len() == 0 {
                Some(None)
            } else {
                let w = slice_chars(ws[0].as_slice(), 0, ws[0].len());
                assert(w@ =~= lines_view(ws@)[0]);
                Some(Some(w))
            }
        },
    }
}

/// Extract the SAML session id from the HTTP request line.
pub fn extract_session_id(request_line: &str) -> (res: Option<String>)
    ensures
        match spec_extract_session_id(request_line@) {
            Some(v) => res matches Some(s) && s@ == v,
            None => res is None,
        },
{
    let line = chars_of(request_line);
    let ws = split_words(line.as_slice());
    if ws.len() < 2 {
        return None;
    }
    let url = &ws[1];
    assert(url@ == words(request_line@)[1]);
    match lookup_param_of(url.as_slice(), "id=") {
        Some(None) => {
            return None;
        },
        Some(Some(v)) => {
            if v.len() > 0 {
                return Some(string_of(v.as_slice()));
            }
        },
        None => {},
    }
    match lookup_param_of(url.as_slice(), "auth_id=") {
        Some(Some(v)) => {
            if v.len() > 0 {
                Some(string_of(v.as_slice()))
            } else {
                None
            }
        },
        _ => None,
    }
}

/// The answer sent to the browser: 200 with the success page when a session
/// id was found, 400 with a short error page otherwise. Content-Length counts
/// the body's UTF-8 bytes.
pub open spec fn spec_callback_body(found: bool) -> Seq<char> {
    if found {
        spec_success_page()
    } else {
        "<html><body><h1>Error</h1><p>No session ID found.</p></body></html>"@
    }
}

pub open spec fn spec_callback_response(found: bool) -> Seq<char> {
    "HTTP/1.1 "@ + (if found { "200 OK"@ } else { "400 Bad Request"@ })
        + "\r\nContent-Type: text/html; charset=utf-8\r\nContent-Length: "@
        + decimal(encode_utf8(spec_callback_body(found)).len()) + "\r\nConnection: close\r\n\r\n"@
        + spec_callback_body(found)
}

pub fn callback_response(found: bool) -> (resp: String)
    ensures
        resp@ == spec_callback_response(found),
{
    let body: String = if found {
        success_page()
    } else {
        "<html><body><h1>Error</h1><p>No session ID found.</p></body></html>".to_string()
    };
    let len = body.as_str().as_bytes().len();
    let mut v: Vec<char> = Vec::new();
    push_str(&mut v, "HTTP/1.1 ");
    if found {
        push_str(&mut v, "200 OK");
    } else {
        push_str(&mut v, "400 Bad Request");
    }
    push_str(&mut v, "\r\nContent-Type: text/html; charset=utf-8\r\nContent-Length: ");
    push_decimal(&mut v, len as u64);
    push_str(&mut v, "\r\nConnection: close\r\n\r\n");
    push_str(&mut v, body.as_str());
    assert(v@ =~= spec_callback_response(found));
    string_of(v.as_slice())
}

}
