//! The logic of a launcher for Habbo AIR clients (Classic, AirPlus and
//! Bobba Client): login tickets, hotels, client installs, the AIR
//! descriptor, launcher updates and settings.
use vstd::prelude::*;
use crate::text::{
    chars_of, starts_with, starts_with_exec, string_of, trim_chars, trim_set, trim_start_chars,
    trim_start_set, CharSet,
};

pub mod clients;
pub mod hotels;
pub mod install;
pub mod launch;
pub mod pipeline;
pub mod settings;
pub mod text;
pub mod ticket;
pub mod timestamps;
pub mod updater;

verus! {

/// The argument carries a `habbo://` link, possibly in quotes.
pub open spec fn is_habbo_link_arg(arg: Seq<char>) -> bool {
    starts_with(trim_start_set(arg, CharSet::Only('"')), "habbo://"@)
}

/// The first argument that is a `habbo://` link, without its quotes.
pub open spec fn spec_habbo_url(args: Seq<Seq<char>>) -> Option<Seq<char>>
    decreases args.len(),
{
    if args.len() == 0 {
        None
    } else if is_habbo_link_arg(args[0]) {
        Some(trim_set(args[0], CharSet::Only('"')))
    } else {
        spec_habbo_url(args.drop_first())
    }
}

/// The `habbo://` link among the launcher's arguments, if any (the first
/// one, with surrounding quotes removed).
pub fn extract_habbo_url(args: &[String]) -> (r: Option<String>)
    ensures
        crate::text::opt_view(r) == spec_habbo_url(args@.map_values(|a: String| a@)),
{
    let ghost all = args@.map_values(|a: String| a@);
    let scheme = chars_of("habbo://");
    let quote = CharSet::Only('"');
    let mut i: usize = 0;
    assert(all.skip(0) =~= all);
    while i < args.len()
        invariant
            all == args@.map_values(|a: String| a@),
            scheme@ == "habbo://"@,
            quote == CharSet::Only('"'),
            i <= args@.len(),
            spec_habbo_url(all) == spec_habbo_url(all.skip(i as int)),
        decreases args@.len() - i,
    {
        let ghost rest = all.skip(i as int);
        assert(rest[0] == args@[i as int]@);
        assert(rest.drop_first() =~= all.skip(i + 1));
        let arg = chars_of(args[i].as_str());
        let unquoted = trim_start_chars(&arg, &quote);
        if starts_with_exec(&unquoted, &scheme) {
            return Some(string_of(&trim_chars(&arg, &quote)));
        }
        i += 1;
    }
    assert(all.skip(i as int) =~= Seq::<Seq<char>>::empty());
    None
}

/// Law: a link found among the arguments starts with `habbo://`.
pub proof fn law_habbo_url_is_link(args: Seq<Seq<char>>)
    ensures
        spec_habbo_url(args) matches Some(u) ==> starts_with(u, "habbo://"@),
    decreases args.len(),
{
    if args.len() > 0 {
        if is_habbo_link_arg(args[0]) {
            reveal_strlit("habbo://");
            let t = trim_start_set(args[0], CharSet::Only('"'));
            crate::text::lemma_trail_len_bound(t, CharSet::Only('"'));
            let n = crate::text::trail_len(t, CharSet::Only('"'));
            assert(t.subrange(0, 8)[7] == t[7]);
            assert(t[7] == '/');
            assert(n <= t.len() - 8) by {
                if n > t.len() - 8 {
                    assert(crate::text::in_set(CharSet::Only('"'), t[7]));
                }
            }
            let u = t.take(t.len() - n);
            assert(u.subrange(0, 8) =~= t.subrange(0, 8));
        } else {
            law_habbo_url_is_link(args.drop_first());
        }
    }
}

} // verus!
