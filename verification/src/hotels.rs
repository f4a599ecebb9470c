//! Habbo hotel server ids and the web hosts they belong to.
use vstd::prelude::*;
use crate::text::{
    ascii_lower, ascii_lowercase, chars_of, eq_ignore_ascii_case, eq_ignore_ascii_case_exec,
    lemma_ascii_lower_idempotent, opt_view,
};

verus! {

/// A hotel: its server id (`hhus`, `hhbr`, ...) and its web host.
pub struct Hotel {
    pub id: String,
    pub host: String,
}

/// The known hotels, in the order the launcher lists them.
pub open spec fn hotel_table() -> Seq<(Seq<char>, Seq<char>)> {
    seq![
        ("hhus"@, "www.habbo.com"@),
        ("hhbr"@, "www.habbo.com.br"@),
        ("hhes"@, "www.habbo.es"@),
        ("hhfr"@, "www.habbo.fr"@),
        ("hhde"@, "www.habbo.de"@),
        ("hhit"@, "www.habbo.it"@),
        ("hhnl"@, "www.habbo.nl"@),
        ("hhfi"@, "www.habbo.fi"@),
        ("hhtr"@, "www.habbo.com.tr"@),
        ("hhs2"@, "sandbox.habbo.com"@),
    ]
}

/// The (id, host) pairs of a list of hotels.
pub open spec fn hotels_view(v: Seq<Hotel>) -> Seq<(Seq<char>, Seq<char>)> {
    v.map_values(|h: Hotel| (h.id@, h.host@))
}

/// The host of the first entry of `table` whose id equals `id` up to ASCII case.
pub open spec fn host_lookup(table: Seq<(Seq<char>, Seq<char>)>, id: Seq<char>) -> Option<Seq<char>>
    decreases table.len(),
{
    if table.len() == 0 {
        None
    } else if eq_ignore_ascii_case(table[0].0, id) {
        Some(table[0].1)
    } else {
        host_lookup(table.drop_first(), id)
    }
}

/// The host of the hotel whose server id is `id`, ignoring ASCII case.
pub open spec fn host_of(id: Seq<char>) -> Option<Seq<char>> {
    host_lookup(hotel_table(), id)
}

fn hotel(id: &str, host: &str) -> (h: Hotel)
    ensures
        h.id@ == id@,
        h.host@ == host@,
{
    Hotel { id: id.to_owned(), host: host.to_owned() }
}

/// All known hotels.
pub fn hotels() -> (r: Vec<Hotel>)
    ensures
        hotels_view(r@) == hotel_table(),
{
    let mut v: Vec<Hotel> = Vec::new();
    v.push(hotel("hhus", "www.habbo.com"));
    v.push(hotel("hhbr", "www.habbo.com.br"));
    v.push(hotel("hhes", "www.habbo.es"));
    v.push(hotel("hhfr", "www.habbo.fr"));
    v.push(hotel("hhde", "www.habbo.de"));
    v.push(hotel("hhit", "www.habbo.it"));
    v.push(hotel("hhnl", "www.habbo.nl"));
    v.push(hotel("hhfi", "www.habbo.fi"));
    v.push(hotel("hhtr", "www.habbo.com.tr"));
    v.push(hotel("hhs2", "sandbox.habbo.com"));
    assert(hotels_view(v@) =~= hotel_table());
    v
}

/// The web host of the hotel with server id `server_id`, compared without
/// regard to ASCII case; `None` for an unknown id.
pub fn host_for_server_id(server_id: &str) -> (r: Option<String>)
    ensures
        opt_view(r) == host_of(server_id@),
{
    let wanted = chars_of(server_id);
    let list = hotels();
    let ghost table = hotels_view(list@);
    let mut i: usize = 0;
    assert(table.skip(0) =~= table);
    while i < list.len()
        invariant
            table == hotels_view(list@),
            table == hotel_table(),
            wanted@ == server_id@,
            i <= list@.len(),
            host_lookup(table, wanted@) == host_lookup(table.skip(i as int), wanted@),
        decreases list@.len() - i,
    {
        let ghost rest = table.skip(i as int);
        assert(rest[0] == (list@[i as int].id@, list@[i as int].host@));
        let id = chars_of(list[i].id.as_str());
        if eq_ignore_ascii_case_exec(&id, &wanted) {
            return Some(list[i].host.clone());
        }
        assert(rest.drop_first() =~= table.skip(i + 1));
        i += 1;
    }
    assert(table.skip(i as int) =~= Seq::<(Seq<char>, Seq<char>)>::empty());
    None
}

/// Equality up to ASCII case does not see the case of the second argument.
proof fn lemma_eq_ignore_case_lowered(a: Seq<char>, b: Seq<char>)
    ensures
        eq_ignore_ascii_case(a, b) == eq_ignore_ascii_case(a, ascii_lowercase(b)),
{
    assert forall|i: int| 0 <= i < b.len() implies ascii_lower(ascii_lowercase(b)[i]) == ascii_lower(
        b[i],
    ) by {
        lemma_ascii_lower_idempotent(b[i]);
    }
}

proof fn lemma_host_lookup_lowered(table: Seq<(Seq<char>, Seq<char>)>, id: Seq<char>)
    ensures
        host_lookup(table, id) == host_lookup(table, ascii_lowercase(id)),
    decreases table.len(),
{
    if table.len() > 0 {
        lemma_eq_ignore_case_lowered(table[0].0, id);
        lemma_host_lookup_lowered(table.drop_first(), id);
    }
}

/// Law: a server id is looked up without regard to ASCII case, so an id
/// and its ASCII-lowercase form name the same hotel.
pub proof fn law_host_ignores_ascii_case(id: Seq<char>)
    ensures
        host_of(id) == host_of(ascii_lowercase(id)),
{
    lemma_host_lookup_lowered(hotel_table(), id);
}

/// The first entry whose id matches is the one `host_lookup` finds.
proof fn lemma_lookup_hit(table: Seq<(Seq<char>, Seq<char>)>, id: Seq<char>, k: int)
    requires
        0 <= k < table.len(),
        eq_ignore_ascii_case(table[k].0, id),
        forall|j: int| 0 <= j < k ==> !eq_ignore_ascii_case(#[trigger] table[j].0, id),
    ensures
        host_lookup(table, id) == Some(table[k].1),
    decreases k,
{
    if k > 0 {
        assert(!eq_ignore_ascii_case(table[0].0, id));
        assert forall|j: int| 0 <= j < k - 1 implies !eq_ignore_ascii_case(
            #[trigger] table.drop_first()[j].0,
            id,
        ) by {
            assert(table.drop_first()[j] == table[j + 1]);
        }
        lemma_lookup_hit(table.drop_first(), id, k - 1);
    }
}

/// With no entry whose id matches, `host_lookup` finds nothing.
proof fn lemma_lookup_miss(table: Seq<(Seq<char>, Seq<char>)>, id: Seq<char>)
    requires
        forall|j: int| 0 <= j < table.len() ==> !eq_ignore_ascii_case(#[trigger] table[j].0, id),
    ensures
        host_lookup(table, id) is None,
    decreases table.len(),
{
    if table.len() > 0 {
        assert(!eq_ignore_ascii_case(table[0].0, id));
        assert forall|j: int| 0 <= j < table.len() - 1 implies !eq_ignore_ascii_case(
            #[trigger] table.drop_first()[j].0,
            id,
        ) by {
            assert(table.drop_first()[j] == table[j + 1]);
        }
        lemma_lookup_miss(table.drop_first(), id);
    }
}

/// Entry `k` of the hotel table is what its own id looks up.
proof fn lemma_hotel_at(k: int)
    requires
        0 <= k < 10,
    ensures
        host_of(hotel_table()[k].0) == Some(hotel_table()[k].1),
{
    reveal_strlit("hhus");
    reveal_strlit("hhbr");
    reveal_strlit("hhes");
    reveal_strlit("hhfr");
    reveal_strlit("hhde");
    reveal_strlit("hhit");
    reveal_strlit("hhnl");
    reveal_strlit("hhfi");
    reveal_strlit("hhtr");
    reveal_strlit("hhs2");
    let t = hotel_table();
    let id = t[k].0;
    assert forall|j: int| 0 <= j < k implies !eq_ignore_ascii_case(#[trigger] t[j].0, id) by {
        if eq_ignore_ascii_case(t[j].0, id) {
            assert(ascii_lower(t[j].0[2]) == ascii_lower(id[2]));
            assert(ascii_lower(t[j].0[3]) == ascii_lower(id[3]));
        }
    }
    lemma_lookup_hit(t, id, k);
}

/// Law: the known hotels. Each server id, in any ASCII case, names its web
/// host: `hhus` www.habbo.com, `hhbr` www.habbo.com.br, `hhes` www.habbo.es,
/// `hhfr` www.habbo.fr, `hhde` www.habbo.de, `hhit` www.habbo.it, `hhnl`
/// www.habbo.nl, `hhfi` www.habbo.fi, `hhtr` www.habbo.com.tr and `hhs2`
/// sandbox.habbo.com; any other id names no hotel.
pub proof fn law_hotel_hosts(id: Seq<char>)
    ensures
        ascii_lowercase(id) == "hhus"@ ==> host_of(id) == Some("www.habbo.com"@),
        ascii_lowercase(id) == "hhbr"@ ==> host_of(id) == Some("www.habbo.com.br"@),
        ascii_lowercase(id) == "hhes"@ ==> host_of(id) == Some("www.habbo.es"@),
        ascii_lowercase(id) == "hhfr"@ ==> host_of(id) == Some("www.habbo.fr"@),
        ascii_lowercase(id) == "hhde"@ ==> host_of(id) == Some("www.habbo.de"@),
        ascii_lowercase(id) == "hhit"@ ==> host_of(id) == Some("www.habbo.it"@),
        ascii_lowercase(id) == "hhnl"@ ==> host_of(id) == Some("www.habbo.nl"@),
        ascii_lowercase(id) == "hhfi"@ ==> host_of(id) == Some("www.habbo.fi"@),
        ascii_lowercase(id) == "hhtr"@ ==> host_of(id) == Some("www.habbo.com.tr"@),
        ascii_lowercase(id) == "hhs2"@ ==> host_of(id) == Some("sandbox.habbo.com"@),
        ascii_lowercase(id) != "hhus"@ && ascii_lowercase(id) != "hhbr"@ && ascii_lowercase(id) != "hhes"@ && ascii_lowercase(id) != "hhfr"@ && ascii_lowercase(id) != "hhde"@ && ascii_lowercase(id) != "hhit"@ && ascii_lowercase(id) != "hhnl"@ && ascii_lowercase(id) != "hhfi"@ && ascii_lowercase(id) != "hhtr"@ && ascii_lowercase(id) != "hhs2"@ ==> host_of(id) is None,
{
    law_host_ignores_ascii_case(id);
    reveal_strlit("hhus");
    reveal_strlit("hhbr");
    reveal_strlit("hhes");
    reveal_strlit("hhfr");
    reveal_strlit("hhde");
    reveal_strlit("hhit");
    reveal_strlit("hhnl");
    reveal_strlit("hhfi");
    reveal_strlit("hhtr");
    reveal_strlit("hhs2");
    lemma_hotel_at(0);
    lemma_hotel_at(1);
    lemma_hotel_at(2);
    lemma_hotel_at(3);
    lemma_hotel_at(4);
    lemma_hotel_at(5);
    lemma_hotel_at(6);
    lemma_hotel_at(7);
    lemma_hotel_at(8);
    lemma_hotel_at(9);
    let l = ascii_lowercase(id);
    let t = hotel_table();
    if l != "hhus"@ && l != "hhbr"@ && l != "hhes"@ && l != "hhfr"@ && l != "hhde"@ && l != "hhit"@ && l != "hhnl"@ && l != "hhfi"@ && l != "hhtr"@ && l != "hhs2"@ {
        assert forall|j: int| 0 <= j < t.len() implies !eq_ignore_ascii_case(#[trigger] t[j].0, l) by {
            if eq_ignore_ascii_case(t[j].0, l) {
                assert forall|i: int| 0 <= i < l.len() implies t[j].0[i] == l[i] by {
                    lemma_ascii_lower_idempotent(id[i]);
                }
                assert(t[j].0 =~= l);
            }
        }
        lemma_lookup_miss(t, l);
    }
}

} // verus!
