//! Starting the client: `Habbo.exe -server <id> -ticket <sso>`, after the
//! AIR descriptor is brought to a known-good state.
use vstd::prelude::*;
use crate::install::{
    ensure_storage, ensure_storage_chars, extensions_closes_matched, extensions_set_apart,
    lemma_strip_extensions_done, no_extensions_block,
    strip_extensions, strip_extensions_chars,
};
use crate::text::{chars_of, concat, string_of};
use crate::ticket::LoginTicket;

verus! {

/// Removes the Discord `<extensions>` blocks from the descriptor (see
/// `strip_extensions`).
pub fn strip_extensions_block(xml: &str) -> (r: String)
    ensures
        r@ == strip_extensions(xml@),
        extensions_closes_matched(xml@) && extensions_set_apart(xml@) ==> no_extensions_block(r@),
{
    proof {
        if extensions_closes_matched(xml@) && extensions_set_apart(xml@) {
            lemma_strip_extensions_done(xml@);
        }
    }
    string_of(&strip_extensions_chars(&chars_of(xml)))
}

/// Adds the encrypted local storage settings unless the descriptor already
/// has them.
pub fn ensure_encrypted_local_storage(xml: &str) -> (r: String)
    ensures
        r@ == ensure_storage(xml@),
{
    string_of(&ensure_storage_chars(&chars_of(xml)))
}

/// Checks made before starting the client in the directory shown as
/// `dir_display`: `Habbo.exe` and `META-INF/AIR/application.xml` must be
/// there.
pub fn launch_precheck(exe_present: bool, descriptor_present: bool, dir_display: &str) -> (r: Result<
    (),
    String,
>)
    ensures
        !exe_present ==> (r matches Err(e) && e@ == "Habbo.exe not found in "@ + dir_display@),
        exe_present && !descriptor_present ==> (r matches Err(e) && e@
            == "META-INF/AIR/application.xml is missing from the client install"@),
        exe_present && descriptor_present ==> r is Ok,
{
    if !exe_present {
        let msg = concat(&chars_of("Habbo.exe not found in "), &chars_of(dir_display));
        return Err(string_of(&msg));
    }
    if !descriptor_present {
        return Err("META-INF/AIR/application.xml is missing from the client install".to_owned());
    }
    Ok(())
}

/// The command line of the client: `-server <server id> -ticket <sso ticket>`.
pub fn launch_args(ticket: &LoginTicket) -> (r: Vec<String>)
    ensures
        r@.len() == 4,
        r@[0]@ == "-server"@,
        r@[1]@ == ticket.server_id@,
        r@[2]@ == "-ticket"@,
        r@[3]@ == ticket.sso_ticket@,
{
    let mut args: Vec<String> = Vec::new();
    args.push("-server".to_owned());
    args.push(ticket.server_id.clone());
    args.push("-ticket".to_owned());
    args.push(ticket.sso_ticket.clone());
    args
}

} // verus!
