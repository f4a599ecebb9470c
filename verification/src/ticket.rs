//! Login tickets: what the player pastes, in the two formats the launcher
//! accepts:
//! - `habbo://hab?server=hhes&token=<uuid>.V4[.username]`
//! - `hhes.<uuid>.V4[.username]`
use vstd::prelude::*;
use crate::hotels::{host_for_server_id, host_of};
use crate::text::{
    chars_of, concat, contains, contains_exec, find, find_exec,
    is_unicode_whitespace, join_nonempty, join_nonempty_from, lead_len, lemma_find_from,
    lemma_find_from_exact, matches_at, opt_view, replace_all, replace_exec, slice_of,
    split_char, split_chars, starts_with, starts_with_exec, string_of, trail_len, trim,
    trim_chars, views, CharSet,
};

verus! {

/// A parsed login ticket.
pub struct LoginTicket {
    pub server_id: String,
    pub sso_ticket: String,
    pub server_host: String,
    pub username: Option<String>,
}

/// The fields of a ticket: server id, SSO ticket, host, username.
pub open spec fn ticket_view(t: LoginTicket) -> (Seq<char>, Seq<char>, Seq<char>, Option<Seq<char>>) {
    (t.server_id@, t.sso_ticket@, t.server_host@, opt_view(t.username))
}

/// The dotted ticket code inside pasted text: the trimmed text itself, or,
/// for a `habbo://` link that carries `server=`, what follows `?server=`
/// with every `&token=` turned into a dot. `None` when the text is blank or
/// the link has `server=` but no `?server=`.
pub open spec fn ticket_code(raw: Seq<char>) -> Option<Seq<char>> {
    let code = trim(raw);
    if code.len() == 0 {
        None
    } else if starts_with(code, "habbo://"@) && contains(code, "server="@) {
        match find(code, "?server="@) {
            None => None,
            Some(idx) => Some(replace_all(code.skip(idx + "?server="@.len()), "&token="@, "."@)),
        }
    } else {
        Some(code)
    }
}

/// The username part: the pieces after the third, empty ones skipped,
/// joined with dots; `None` when that is empty.
pub open spec fn username_of(parts: Seq<Seq<char>>) -> Option<Seq<char>> {
    let name = join_nonempty(parts.skip(3), "."@);
    if name.len() == 0 {
        None
    } else {
        Some(name)
    }
}

/// What `parse_ticket` gives for the pasted text `raw`: the code is split at
/// dots; it needs at least three pieces, the first naming a known hotel.
pub open spec fn parsed_ticket(raw: Seq<char>) -> Option<
    (Seq<char>, Seq<char>, Seq<char>, Option<Seq<char>>),
> {
    match ticket_code(raw) {
        None => None,
        Some(code) => {
            let parts = split_char(code, '.');
            if parts.len() < 3 {
                None
            } else {
                match host_of(parts[0]) {
                    None => None,
                    Some(host) => Some(
                        (parts[0], parts[1] + "."@ + parts[2], host, username_of(parts)),
                    ),
                }
            }
        },
    }
}

fn ticket_code_exec(raw: &str) -> (r: Option<Vec<char>>)
    ensures
        r matches Some(c) ==> ticket_code(raw@) == Some(c@),
        r is None ==> ticket_code(raw@) is None,
{
    let raw_chars = chars_of(raw);
    let code = trim_chars(&raw_chars, &CharSet::Whitespace);
    if code.len() == 0 {
        return None;
    }
    let scheme = chars_of("habbo://");
    let server_key = chars_of("server=");
    if starts_with_exec(&code, &scheme) && contains_exec(&code, &server_key) {
        let marker = chars_of("?server=");
        let idx = match find_exec(&code, &marker) {
            Some(i) => i,
            None => return None,
        };
        proof {
            lemma_find_from(code@, marker@, 0);
            reveal_strlit("&token=");
        }
        let tail = slice_of(&code, idx + marker.len(), code.len());
        assert(tail@ =~= code@.skip(idx + "?server="@.len()));
        let token_key = chars_of("&token=");
        let dot = chars_of(".");
        Some(replace_exec(&tail, &token_key, &dot))
    } else {
        Some(code)
    }
}

/// Parses pasted text into a login ticket (see the module documentation for
/// the two formats). `None` when the text is blank, has fewer than three
/// dot-separated pieces, or names an unknown hotel.
pub fn parse_ticket(raw: &str) -> (r: Option<LoginTicket>)
    ensures
        match r {
            Some(t) => parsed_ticket(raw@) == Some(ticket_view(t)),
            None => parsed_ticket(raw@) is None,
        },
{
    let code = match ticket_code_exec(raw) {
        Some(c) => c,
        None => return None,
    };
    let parts = split_chars(&code, '.');
    let ghost pv = views(parts@);
    if parts.len() < 3 {
        return None;
    }
    assert(pv[0] == parts@[0]@ && pv[1] == parts@[1]@ && pv[2] == parts@[2]@);
    let server_id = string_of(&parts[0]);
    let host = match host_for_server_id(server_id.as_str()) {
        Some(h) => h,
        None => return None,
    };
    let dot = chars_of(".");
    let with_dot = concat(&parts[1], &dot);
    let sso = concat(&with_dot, &parts[2]);
    let name = join_nonempty_from(&parts, 3, &dot);
    let username = if name.len() == 0 {
        None
    } else {
        Some(string_of(&name))
    };
    Some(
        LoginTicket {
            server_id,
            sso_ticket: string_of(&sso),
            server_host: host,
            username,
        },
    )
}

/// The error for pasted text that is not a login ticket.
pub open spec fn invalid_ticket_message() -> Seq<char> {
    "Invalid login ticket. Paste a habbo:// link or server.ticket.V4 code."@
}

/// The ticket to launch with, or the error shown for text that is not one.
pub fn launch_ticket(raw: &str) -> (r: Result<LoginTicket, String>)
    ensures
        match r {
            Ok(t) => parsed_ticket(raw@) == Some(ticket_view(t)),
            Err(e) => parsed_ticket(raw@) is None && e@ == invalid_ticket_message(),
        },
{
    match parse_ticket(raw) {
        Some(t) => Ok(t),
        None => Err("Invalid login ticket. Paste a habbo:// link or server.ticket.V4 code.".to_owned()),
    }
}

/// Text that starts and ends with a non-whitespace character is its own trim.
proof fn lemma_trim_unchanged(s: Seq<char>)
    requires
        s.len() > 0,
        !is_unicode_whitespace(s[0]),
        !is_unicode_whitespace(s.last()),
    ensures
        trim(s) == s,
{
    assert(lead_len(s, CharSet::Whitespace) == 0);
    assert(s.skip(0) =~= s);
    assert(trail_len(s, CharSet::Whitespace) == 0);
    assert(s.take(s.len() as int) =~= s);
}

/// Text without the first character of `f` passes through `replace_all`
/// untouched, whatever follows it.
proof fn lemma_replace_skips(a: Seq<char>, rest: Seq<char>, f: Seq<char>, t: Seq<char>)
    requires
        f.len() > 0,
        forall|i: int| 0 <= i < a.len() ==> a[i] != f[0],
    ensures
        replace_all(a + rest, f, t) == a + replace_all(rest, f, t),
    decreases a.len(),
{
    if a.len() == 0 {
        assert(a + rest =~= rest);
        assert(a + replace_all(rest, f, t) =~= replace_all(rest, f, t));
    } else {
        let s = a + rest;
        assert(s[0] == a[0]);
        assert(!starts_with(s, f)) by {
            if starts_with(s, f) {
                assert(s.subrange(0, f.len() as int)[0] == s[0]);
            }
        }
        assert(s.drop_first() =~= a.drop_first() + rest);
        lemma_replace_skips(a.drop_first(), rest, f, t);
        assert(a + replace_all(rest, f, t) =~= seq![a[0]] + (a.drop_first() + replace_all(
            rest,
            f,
            t,
        )));
    }
}

/// Law: a `habbo://hab?server=<id>&token=<token>` link and the dotted code
/// `<id>.<token>` parse to the same ticket, for a server id without `&` or
/// `:` that does not start with whitespace, and a token without `&` that
/// does not end in whitespace.
pub proof fn law_link_and_code_agree(server: Seq<char>, token: Seq<char>)
    requires
        server.len() > 0,
        !is_unicode_whitespace(server[0]),
        forall|i: int| 0 <= i < server.len() ==> #[trigger] server[i] != '&' && server[i] != ':',
        token.len() > 0,
        !is_unicode_whitespace(token.last()),
        forall|i: int| 0 <= i < token.len() ==> #[trigger] token[i] != '&',
    ensures
        parsed_ticket("habbo://hab?server="@ + server + "&token="@ + token) == parsed_ticket(
            server + "."@ + token,
        ),
        ticket_code(server + "."@ + token) == Some(server + "."@ + token),
{
    reveal_strlit("habbo://hab?server=");
    reveal_strlit("habbo://");
    reveal_strlit("?server=");
    reveal_strlit("server=");
    reveal_strlit("&token=");
    reveal_strlit(".");
    let prefix = "habbo://hab?server="@;
    let amp = "&token="@;
    let dot = "."@;
    let code = server + dot + token;
    let link = prefix + server + amp + token;
    // The dotted code is left as it is.
    assert(code[0] == server[0]);
    assert(code.last() == token.last());
    lemma_trim_unchanged(code);
    assert(!starts_with(code, "habbo://"@)) by {
        if starts_with(code, "habbo://"@) {
            let k: int = if server.len() < 6 {
                server.len() as int
            } else {
                5
            };
            assert(code.subrange(0, 8)[k] == code[k]);
            assert(code[k] == "habbo://"@[k]);
            if server.len() < 6 {
                assert(code[k] == '.');
            } else {
                assert(code[k] == server[k]);
            }
        }
    }
    // The link is reduced to the same code.
    assert(link[0] == 'h');
    assert(link.last() == token.last());
    lemma_trim_unchanged(link);
    assert(link.subrange(0, 8) =~= "habbo://"@);
    assert(link.subrange(11, 19) =~= "?server="@);
    assert forall|j: int| 0 <= j < 11 implies !#[trigger] matches_at(link, "?server="@, j) by {
        assert(link[j] == prefix[j]);
        if matches_at(link, "?server="@, j) {
            assert(link.subrange(j, j + 8)[0] == link[j]);
        }
    }
    lemma_find_from_exact(link, "?server="@, 0, 11);
    assert(link.subrange(12, 19) =~= "server="@);
    lemma_find_from(link, "server="@, 0);
    assert(matches_at(link, "server="@, 12));
    let tail = link.skip(19);
    assert(tail =~= server + (amp + token));
    assert forall|i: int| 0 <= i < server.len() implies server[i] != amp[0] by {
        assert(server[i] != '&');
    }
    lemma_replace_skips(server, amp + token, amp, dot);
    assert((amp + token).subrange(0, 7) =~= amp);
    assert((amp + token).skip(7) =~= token);
    lemma_replace_skips(token, Seq::<char>::empty(), amp, dot);
    assert(token + Seq::<char>::empty() =~= token);
    assert(replace_all(Seq::<char>::empty(), amp, dot) =~= Seq::<char>::empty());
    assert(server + (dot + token) =~= code);
}

} // verus!
