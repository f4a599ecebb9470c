//! Client installation: where installs live, when one is complete, and the
//! steps that download and unpack a client.
//!
//! Classic is the official AIR client from the hotel's `/gamedata/clienturls`;
//! AirPlus is `HabboAir.swf` from the HabboAirPlus releases plus the AirPlus
//! patch; AirBobba (Bobba Client) is `HabboAir.swf` from the bobba-client
//! releases plus the Bobba patch.
use vstd::prelude::*;
use vstd::string::StringSliceAdditionalSpecFns;
use crate::clients::{spec_download_dir, ClientId};
use crate::text::{
    chars_eq, chars_of, concat, contains, contains_exec, decimal_i64, eq_ignore_ascii_case,
    eq_ignore_ascii_case_exec, find, find_exec, find_from, i64_to_decimal, is_alphanumeric,
    is_ascii_alphanumeric, lead_len, lemma_find_from, lemma_find_from_exact,
    lemma_lead_len_bound, matches_at, opt_view, rfind, rfind_exec, slice_of, strip_prefix_all,
    strip_prefix_all_exec, string_of, trim, trim_chars, trim_set, trim_start_chars,
    trim_start_set, CharSet,
};
use crate::timestamps::{
    parse_rfc2822_timestamp, parse_rfc3339_timestamp, rfc2822_timestamp, rfc3339_timestamp,
};

verus! {

/// A progress report for the launcher window.
pub struct ProgressEvent {
    pub stage: String,
    pub percent: Option<u8>,
    pub message: String,
}

pub open spec fn progress_view(p: ProgressEvent) -> (Seq<char>, Option<u8>, Seq<char>) {
    (p.stage@, p.percent, p.message@)
}

/// The directory of one installed client version:
/// `<root>/downloads/<folder>/<version>`.
pub struct InstallDir {
    pub root: String,
    pub folder: String,
    pub version: String,
}

impl InstallDir {
    pub open spec fn view_triple(self) -> (Seq<char>, Seq<char>, Seq<char>) {
        (self.root@, self.folder@, self.version@)
    }

    /// The path components, from the data root down.
    pub fn segments(&self) -> (r: Vec<String>)
        ensures
            r@.len() == 4,
            r@[0]@ == self.root@,
            r@[1]@ == "downloads"@,
            r@[2]@ == self.folder@,
            r@[3]@ == self.version@,
    {
        let mut v: Vec<String> = Vec::new();
        v.push(self.root.clone());
        v.push("downloads".to_owned());
        v.push(self.folder.clone());
        v.push(self.version.clone());
        v
    }
}

/// Where version `version` of `id` is installed under data root `root`.
pub open spec fn install_dir_of(root: Seq<char>, id: ClientId, version: Seq<char>) -> (
    Seq<char>,
    Seq<char>,
    Seq<char>,
) {
    (root, spec_download_dir(id), version)
}

/// The install directory of version `version` of `id` under `root`.
pub fn client_dir(root: &str, id: ClientId, version: &str) -> (r: Result<InstallDir, String>)
    ensures
        r matches Ok(d) && d.view_triple() == install_dir_of(root@, id, version@),
{
    let folder = match id.download_dir_name() {
        Some(f) => f,
        None => return Err("This client is not available yet".to_owned()),
    };
    Ok(InstallDir { root: root.to_owned(), folder: folder.to_owned(), version: version.to_owned() })
}

/// Which of the files a launchable install needs were found in a directory.
#[derive(Clone, Copy)]
pub struct InstallFiles {
    /// `Habbo.exe` is a file.
    pub habbo_exe: bool,
    /// `HabboAir.swf` is a file.
    pub habbo_swf: bool,
    /// `META-INF/AIR/application.xml` is a file.
    pub application_xml: bool,
}

pub open spec fn healthy(files: InstallFiles) -> bool {
    files.habbo_exe && files.habbo_swf && files.application_xml
}

/// True when an install looks complete enough to launch: `Habbo.exe`,
/// `HabboAir.swf` and `META-INF/AIR/application.xml` are all there.
pub fn is_install_healthy(files: &InstallFiles) -> (r: bool)
    ensures
        r == healthy(*files),
{
    files.habbo_exe && files.habbo_swf && files.application_xml
}

/// The install of version `version` of `id`, when `files` (what was found
/// there) shows it complete; otherwise the error asking to install first.
pub fn resolve_install(root: &str, id: ClientId, version: &str, files: &InstallFiles) -> (r: Result<
    InstallDir,
    String,
>)
    ensures
        healthy(*files) ==> (r matches Ok(d) && d.view_triple() == install_dir_of(root@, id, version@)),
        !healthy(*files) ==> (r matches Err(e) && e@
            == "Client is not installed. Click Install / Update first."@),
{
    let dir = client_dir(root, id, version)?;
    if is_install_healthy(files) {
        Ok(dir)
    } else {
        Err("Client is not installed. Click Install / Update first.".to_owned())
    }
}

// ---------------------------------------------------------------------------
// AIR application descriptor

/// The opening tag of the Discord native-extensions block.
pub const EXTENSIONS_OPEN: &'static str = "<extensions>";

/// The closing tag of the Discord native-extensions block.
pub const EXTENSIONS_CLOSE: &'static str = "</extensions>";

/// The opening tag of the encrypted local storage settings.
pub const STORAGE_TAG: &'static str = "<encryptedLocalStorage>";

/// The closing tag of the application descriptor.
pub const APPLICATION_CLOSE: &'static str = "</application>";

/// The encrypted local storage settings of a working AIR profile.
pub const STORAGE_BLOCK: &'static str = "    <encryptedLocalStorage>\n        <fallbackMode>never</fallbackMode>\n        <storageMode>file</storageMode>\n    </encryptedLocalStorage>\n";

/// `xml` with the characters from `start` up to `end` cut out, and the line
/// breaks, spaces and tabs that follow the cut removed.
pub open spec fn cut_block(xml: Seq<char>, start: int, end: int) -> Seq<char> {
    xml.take(start) + trim_start_set(xml.skip(end), CharSet::LineSpace)
}

/// The descriptor without its `<extensions>` blocks. A step takes the first
/// `<extensions>` and the first `</extensions>` in the text and cuts from the
/// former to the end of the latter, with the line breaks, spaces and tabs
/// that follow. When the closing tag comes after the opening tag, the steps
/// go on with what is left; when it comes before, the text from the end of
/// the closing tag up to the opening tag appears twice in the result and
/// nothing more is cut. Unchanged when either tag is missing. Where the
/// text before a cut and the text after it meet, they can spell a new tag.
pub open spec fn strip_extensions(xml: Seq<char>) -> Seq<char>
    decreases xml.len(),
{
    match (find(xml, EXTENSIONS_OPEN@), find(xml, EXTENSIONS_CLOSE@)) {
        (Some(start), Some(close)) => {
            let end = close + EXTENSIONS_CLOSE@.len();
            if close < start {
                cut_block(xml, start, end)
            } else {
                proof {
                    reveal_strlit("</extensions>");
                    lemma_find_from(xml, EXTENSIONS_OPEN@, 0);
                    lemma_find_from(xml, EXTENSIONS_CLOSE@, 0);
                    lemma_lead_len_bound(xml.skip(end), CharSet::LineSpace);
                }
                strip_extensions(cut_block(xml, start, end))
            }
        },
        _ => xml,
    }
}

/// No `<extensions>` in `s` is followed, anywhere after it, by a
/// `</extensions>`: there is no block left to cut.
pub open spec fn no_extensions_block(s: Seq<char>) -> bool {
    forall|i: int|
        #[trigger] matches_at(s, EXTENSIONS_OPEN@, i) ==> find_from(
            s,
            EXTENSIONS_CLOSE@,
            i + EXTENSIONS_OPEN@.len(),
        ) is None
}

/// Every `<extensions>` in `s` is followed, somewhere after it, by a
/// `</extensions>`.
pub open spec fn extensions_all_closed(s: Seq<char>) -> bool {
    forall|i: int|
        #[trigger] matches_at(s, EXTENSIONS_OPEN@, i) ==> find_from(
            s,
            EXTENSIONS_CLOSE@,
            i + EXTENSIONS_OPEN@.len(),
        ) is Some
}

/// Every `</extensions>` in `s` closes an `<extensions>`: it is the first
/// `</extensions>` after some `<extensions>`.
pub open spec fn extensions_closes_matched(s: Seq<char>) -> bool {
    forall|c: int|
        #[trigger] matches_at(s, EXTENSIONS_CLOSE@, c) ==> exists|o: int|
            #[trigger] matches_at(s, EXTENSIONS_OPEN@, o) && find_from(
                s,
                EXTENSIONS_CLOSE@,
                o + EXTENSIONS_OPEN@.len(),
            ) == Some(c)
}

/// A character of `</extensions>` other than its closing `>` (every
/// character of `<extensions` is one): text that ends in one can run on
/// into a tag that follows it.
pub open spec fn opens_tag(c: char) -> bool {
    EXTENSIONS_CLOSE@.drop_last().contains(c)
}

/// No `<extensions>` in `s` comes right after a character that could begin
/// a tag (in XML the tag follows a `>` or white space).
pub open spec fn extensions_set_apart(s: Seq<char>) -> bool {
    forall|i: int| 0 < i && #[trigger] matches_at(s, EXTENSIONS_OPEN@, i) ==> !opens_tag(s[i - 1])
}

/// The descriptor with the storage block put just before the last
/// `</application>`; unchanged when there is none.
pub open spec fn insert_storage(xml: Seq<char>) -> Seq<char> {
    match rfind(xml, APPLICATION_CLOSE@) {
        Some(idx) => xml.take(idx) + STORAGE_BLOCK@ + xml.skip(idx),
        None => xml,
    }
}

/// The descriptor with the storage block inserted unless it already has
/// `<encryptedLocalStorage>`.
pub open spec fn ensure_storage(xml: Seq<char>) -> Seq<char> {
    if contains(xml, STORAGE_TAG@) {
        xml
    } else {
        insert_storage(xml)
    }
}

/// The descriptor of a known-good install: no extensions, storage present.
pub open spec fn normalized_descriptor(xml: Seq<char>) -> Seq<char> {
    ensure_storage(strip_extensions(xml))
}

/// The characters of the descriptor without its `<extensions>` blocks.
pub fn strip_extensions_chars(xml: &Vec<char>) -> (r: Vec<char>)
    ensures
        r@ == strip_extensions(xml@),
{
    let open = chars_of(EXTENSIONS_OPEN);
    let close = chars_of(EXTENSIONS_CLOSE);
    let mut cur = xml.clone();
    proof {
        reveal_strlit("</extensions>");
    }
    loop
        invariant
            open@ == EXTENSIONS_OPEN@,
            close@ == EXTENSIONS_CLOSE@,
            close@.len() > 0,
            strip_extensions(cur@) == strip_extensions(xml@),
        decreases cur@.len(),
    {
        let start = match find_exec(&cur, &open) {
            Some(start) => start,
            None => return cur,
        };
        let c = match find_exec(&cur, &close) {
            Some(c) => c,
            None => return cur,
        };
        proof {
            lemma_find_from(cur@, open@, 0);
            lemma_find_from(cur@, close@, 0);
        }
        let n = cur.len();
        assert(start <= n);
        assert(c + close@.len() <= n);
        let end = c + close.len();
        let head = slice_of(&cur, 0, start);
        let tail = slice_of(&cur, end, n);
        let trimmed = trim_start_chars(&tail, &CharSet::LineSpace);
        assert(head@ =~= cur@.take(start as int));
        assert(tail@ =~= cur@.skip(end as int));
        proof {
            lemma_lead_len_bound(tail@, CharSet::LineSpace);
        }
        let next = concat(&head, &trimmed);
        assert(next@ == cut_block(cur@, start as int, end as int));
        if c < start {
            return next;
        }
        cur = next;
    }
}

proof fn lemma_find_from_none_later(s: Seq<char>, p: Seq<char>, a: int, b: int)
    requires
        0 <= a <= b,
        find_from(s, p, a) is None,
    ensures
        find_from(s, p, b) is None,
{
    lemma_find_from(s, p, a);
    lemma_find_from(s, p, b);
}

proof fn lemma_find_from_reaches(s: Seq<char>, p: Seq<char>, i: int, k: int)
    requires
        0 <= i <= k,
        matches_at(s, p, k),
    ensures
        find_from(s, p, i) is Some,
{
    lemma_find_from(s, p, i);
}

/// When every `</extensions>` closes an `<extensions>`, the first
/// `</extensions>` comes after the first `<extensions>` and is the first one
/// after it.
proof fn lemma_first_close_after_first_open(s: Seq<char>, close: int)
    requires
        extensions_closes_matched(s),
        find(s, EXTENSIONS_CLOSE@) == Some(close),
    ensures
        find(s, EXTENSIONS_OPEN@) matches Some(start) && start < close && find_from(
            s,
            EXTENSIONS_CLOSE@,
            start + EXTENSIONS_OPEN@.len(),
        ) == Some(close),
{
    reveal_strlit("<extensions>");
    let open = EXTENSIONS_OPEN@;
    let cl = EXTENSIONS_CLOSE@;
    lemma_find_from(s, cl, 0);
    lemma_find_from(s, open, 0);
    let o = choose|o: int| #[trigger] matches_at(s, open, o) && find_from(s, cl, o + open.len()) == Some(close);
    lemma_find_from(s, cl, o + open.len());
    let start = find(s, open)->0;
    lemma_find_from_exact(s, cl, start + open.len(), close);
}

/// One step of `strip_extensions` on a text whose closing tags all close
/// an opening tag and whose opening tags are set apart keeps both, and
/// keeps every `<extensions>` closed when all of them were.
proof fn lemma_cut_keeps_tags(s: Seq<char>, start: int, close: int)
    requires
        find(s, EXTENSIONS_OPEN@) == Some(start),
        find(s, EXTENSIONS_CLOSE@) == Some(close),
        extensions_closes_matched(s),
        extensions_set_apart(s),
    ensures
        extensions_closes_matched(cut_block(s, start, close + EXTENSIONS_CLOSE@.len())),
        extensions_set_apart(cut_block(s, start, close + EXTENSIONS_CLOSE@.len())),
        extensions_all_closed(s) ==> extensions_all_closed(
            cut_block(s, start, close + EXTENSIONS_CLOSE@.len()),
        ),
{
    reveal_strlit("<extensions>");
    reveal_strlit("</extensions>");
    let open = EXTENSIONS_OPEN@;
    let cl = EXTENSIONS_CLOSE@;
    lemma_first_close_after_first_open(s, close);
    lemma_find_from(s, open, 0);
    lemma_find_from(s, cl, 0);
    lemma_find_from(s, cl, start + open.len());
    assert(forall|m: int| 1 <= m < open.len() ==> open[m] != '<');
    assert(forall|m: int| 1 <= m < cl.len() ==> cl[m] != '<');
    let end = close + cl.len();
    let t = s.skip(end);
    lemma_lead_len_bound(t, CharSet::LineSpace);
    let lead = lead_len(t, CharSet::LineSpace) as int;
    let r = cut_block(s, start, end);
    let d = end + lead - start;
    assert(r.len() == start + s.len() - end - lead);
    assert forall|m: int| 0 <= m < start implies #[trigger] r[m] == s[m] by {}
    assert forall|m: int| start <= m < r.len() implies #[trigger] r[m] == s[m + d] by {}
    assert forall|j: int| #[trigger] matches_at(r, open, j) implies (extensions_all_closed(s)
        ==> find_from(r, cl, j + open.len()) is Some) && (0 < j ==> !opens_tag(r[j - 1])) by {
        if j + open.len() <= start {
            assert(s.subrange(j, j + open.len()) =~= r.subrange(j, j + open.len()));
            assert(matches_at(s, open, j));
        } else if j < start {
            let m = start - 1 - j;
            assert(r.subrange(j, j + open.len())[m] == r[start - 1]);
            assert(forall|k: int| 1 <= k < 11 ==> open[k] == cl[k + 1]);
            if m == 0 {
                assert(cl.drop_last()[0] == s[start - 1]);
            } else {
                assert(cl.drop_last()[m + 1] == s[start - 1]);
            }
            assert(opens_tag(s[start - 1]));
            assert(matches_at(s, open, start));
        } else {
            let k = j + d;
            assert(s.subrange(k, k + open.len()) =~= r.subrange(j, j + open.len()));
            assert(matches_at(s, open, k));
            if extensions_all_closed(s) {
                lemma_find_from(s, cl, k + open.len());
                let c2 = find_from(s, cl, k + open.len())->0;
                assert(r.subrange(c2 - d, c2 - d + cl.len()) =~= s.subrange(c2, c2 + cl.len()));
                lemma_find_from_reaches(r, cl, j + open.len(), c2 - d);
            }
            if j > start {
                assert(r[j - 1] == s[k - 1]);
            } else if j > 0 {
                assert(r[j - 1] == s[start - 1]);
                assert(matches_at(s, open, start));
            }
        }
    }
    assert forall|q: int| #[trigger] matches_at(r, cl, q) implies exists|o: int|
        #[trigger] matches_at(r, open, o) && find_from(r, cl, o + open.len()) == Some(q) by {
        if q + cl.len() <= start {
            assert(s.subrange(q, q + cl.len()) =~= r.subrange(q, q + cl.len()));
            assert(matches_at(s, cl, q));
        } else if q < start {
            let m = start - 1 - q;
            assert(r.subrange(q, q + cl.len())[m] == r[start - 1]);
            assert(cl.drop_last()[m] == s[start - 1]);
            assert(opens_tag(s[start - 1]));
            assert(matches_at(s, open, start));
        } else {
            let k = q + d;
            assert(s.subrange(k, k + cl.len()) =~= r.subrange(q, q + cl.len()));
            assert(matches_at(s, cl, k));
            let o = choose|o: int| #[trigger] matches_at(s, open, o) && find_from(s, cl, o + open.len()) == Some(k);
            lemma_find_from(s, cl, o + open.len());
            assert(o >= end + lead) by {
                if o + open.len() <= close {
                    assert(matches_at(s, cl, close));
                } else if o < close {
                    assert(s.subrange(o, o + open.len())[close - o] == s[close]);
                    assert(s.subrange(close, close + cl.len())[0] == s[close]);
                } else if o < end {
                    assert(s.subrange(o, o + open.len())[0] == s[o]);
                    assert(s.subrange(close, close + cl.len())[o - close] == s[o]);
                    if o == close {
                        assert(s.subrange(o, o + open.len())[1] == s[o + 1]);
                        assert(s.subrange(close, close + cl.len())[1] == s[o + 1]);
                    }
                } else if o < end + lead {
                    assert(s.subrange(o, o + open.len())[0] == s[o]);
                    assert(t[o - end] == s[o]);
                }
            }
            let o2 = o - d;
            assert(r.subrange(o2, o2 + open.len()) =~= s.subrange(o, o + open.len()));
            assert(matches_at(r, open, o2));
            assert forall|j: int| o2 + open.len() <= j < q implies !#[trigger] matches_at(r, cl, j) by {
                if matches_at(r, cl, j) {
                    assert(s.subrange(j + d, j + d + cl.len()) =~= r.subrange(j, j + cl.len()));
                    assert(matches_at(s, cl, j + d));
                }
            }
            lemma_find_from_exact(r, cl, o2 + open.len(), q);
        }
    }
}

/// What `strip_extensions` leaves of a text whose closing tags all close an
/// opening tag, and whose opening tags are set apart, lacks one of the two
/// tags; it lacks `<extensions>` when every one of them was closed.
proof fn lemma_strip_extensions_result(xml: Seq<char>)
    requires
        extensions_closes_matched(xml),
        extensions_set_apart(xml),
    ensures
        !contains(strip_extensions(xml), EXTENSIONS_OPEN@) || !contains(
            strip_extensions(xml),
            EXTENSIONS_CLOSE@,
        ),
        extensions_all_closed(xml) ==> !contains(strip_extensions(xml), EXTENSIONS_OPEN@),
    decreases xml.len(),
{
    reveal_strlit("</extensions>");
    lemma_find_from(xml, EXTENSIONS_OPEN@, 0);
    lemma_find_from(xml, EXTENSIONS_CLOSE@, 0);
    match (find(xml, EXTENSIONS_OPEN@), find(xml, EXTENSIONS_CLOSE@)) {
        (Some(start), Some(close)) => {
            lemma_first_close_after_first_open(xml, close);
            let end = close + EXTENSIONS_CLOSE@.len();
            lemma_lead_len_bound(xml.skip(end), CharSet::LineSpace);
            lemma_cut_keeps_tags(xml, start, close);
            lemma_strip_extensions_result(cut_block(xml, start, end));
        },
        (Some(start), None) => {
            if extensions_all_closed(xml) {
                assert(matches_at(xml, EXTENSIONS_OPEN@, start));
                lemma_find_from_none_later(
                    xml,
                    EXTENSIONS_CLOSE@,
                    0,
                    start + EXTENSIONS_OPEN@.len(),
                );
            }
        },
        _ => {},
    }
}

/// What `strip_extensions` leaves of a text whose closing tags all close an
/// opening tag, and whose opening tags are set apart, has no block left.
pub proof fn lemma_strip_extensions_done(xml: Seq<char>)
    requires
        extensions_closes_matched(xml),
        extensions_set_apart(xml),
    ensures
        no_extensions_block(strip_extensions(xml)),
{
    let r = strip_extensions(xml);
    lemma_strip_extensions_result(xml);
    lemma_find_from(r, EXTENSIONS_OPEN@, 0);
    assert forall|i: int| #[trigger] matches_at(r, EXTENSIONS_OPEN@, i) implies find_from(
        r,
        EXTENSIONS_CLOSE@,
        i + EXTENSIONS_OPEN@.len(),
    ) is None by {
        lemma_find_from_none_later(r, EXTENSIONS_CLOSE@, 0, i + EXTENSIONS_OPEN@.len());
    }
}

/// Law: when every `<extensions>` of a descriptor has a `</extensions>`
/// after it, every `</extensions>` closes an `<extensions>`, and no
/// `<extensions>` runs on from a character that could begin a tag, no
/// `<extensions>` is left once the blocks are stripped.
pub proof fn law_stripped_has_no_extensions(xml: Seq<char>)
    requires
        extensions_all_closed(xml),
        extensions_closes_matched(xml),
        extensions_set_apart(xml),
    ensures
        !contains(strip_extensions(xml), EXTENSIONS_OPEN@),
{
    lemma_strip_extensions_result(xml);
}

/// Adding the storage block brings no `<extensions>` into a descriptor.
proof fn lemma_storage_adds_no_extensions(s: Seq<char>)
    requires
        !contains(s, EXTENSIONS_OPEN@),
    ensures
        !contains(ensure_storage(s), EXTENSIONS_OPEN@),
{
    if !contains(s, STORAGE_TAG@) {
        match rfind(s, APPLICATION_CLOSE@) {
            Some(idx) => {
                lemma_rfind_bound(s, APPLICATION_CLOSE@);
                reveal_strlit("    <encryptedLocalStorage>\n        <fallbackMode>never</fallbackMode>\n        <storageMode>file</storageMode>\n    </encryptedLocalStorage>\n");
                reveal_strlit("<extensions>");
                let open = EXTENSIONS_OPEN@;
                let b = STORAGE_BLOCK@;
                let bl = b.len() as int;
                assert(forall|k: int| 0 <= k < bl ==> b[k] != 'x');
                assert(forall|k: int| 0 <= k < open.len() ==> open[k] != ' ' && open[k] != '\n');
                let y = insert_storage(s);
                lemma_find_from(s, open, 0);
                assert forall|m: int| 0 <= m < idx implies #[trigger] y[m] == s[m] by {}
                assert forall|m: int| 0 <= m < bl implies #[trigger] y[idx + m] == b[m] by {}
                assert forall|m: int| idx + bl <= m < y.len() implies #[trigger] y[m] == s[m - bl] by {}
                assert forall|j: int| !#[trigger] matches_at(y, open, j) by {
                    if matches_at(y, open, j) {
                        let w = y.subrange(j, j + open.len());
                        if j + open.len() <= idx {
                            assert(s.subrange(j, j + open.len()) =~= w);
                            assert(matches_at(s, open, j));
                        } else if j >= idx + bl {
                            assert(s.subrange(j - bl, j - bl + open.len()) =~= w);
                            assert(matches_at(s, open, j - bl));
                        } else if j < idx {
                            assert(w[idx - j] == y[idx + 0]);
                        } else if j + open.len() <= idx + bl {
                            assert(w[2] == y[idx + (j + 2 - idx)]);
                        } else {
                            assert(w[idx + bl - 1 - j] == y[idx + (bl - 1)]);
                        }
                    }
                }
                lemma_find_from(y, open, 0);
            },
            None => {},
        }
    }
}

/// Law: under the conditions of `law_stripped_has_no_extensions`, the
/// normalized descriptor holds no `<extensions>`: the storage block brings
/// none in.
pub proof fn law_normalized_has_no_extensions(xml: Seq<char>)
    requires
        extensions_all_closed(xml),
        extensions_closes_matched(xml),
        extensions_set_apart(xml),
    ensures
        !contains(normalized_descriptor(xml), EXTENSIONS_OPEN@),
{
    law_stripped_has_no_extensions(xml);
    lemma_storage_adds_no_extensions(strip_extensions(xml));
}

/// Law: on a descriptor whose closing tags all close an opening tag and
/// whose opening tags are set apart, stripping the blocks twice is
/// stripping them once.
pub proof fn law_strip_extensions_idempotent(xml: Seq<char>)
    requires
        extensions_closes_matched(xml),
        extensions_set_apart(xml),
    ensures
        strip_extensions(strip_extensions(xml)) == strip_extensions(xml),
{
    lemma_strip_extensions_result(xml);
}

pub fn insert_storage_chars(xml: &Vec<char>) -> (r: Vec<char>)
    ensures
        r@ == insert_storage(xml@),
{
    let close = chars_of(APPLICATION_CLOSE);
    match rfind_exec(xml, &close) {
        Some(idx) => {
            proof {
                lemma_rfind_bound(xml@, close@);
            }
            let head = slice_of(xml, 0, idx);
            let tail = slice_of(xml, idx, xml.len());
            let block = chars_of(STORAGE_BLOCK);
            let with_block = concat(&head, &block);
            assert(head@ =~= xml@.take(idx as int));
            assert(tail@ =~= xml@.skip(idx as int));
            concat(&with_block, &tail)
        },
        None => xml.clone(),
    }
}

pub fn ensure_storage_chars(xml: &Vec<char>) -> (r: Vec<char>)
    ensures
        r@ == ensure_storage(xml@),
{
    let tag = chars_of(STORAGE_TAG);
    if contains_exec(xml, &tag) {
        xml.clone()
    } else {
        insert_storage_chars(xml)
    }
}

proof fn lemma_rfind_bound(s: Seq<char>, p: Seq<char>)
    ensures
        rfind(s, p) matches Some(k) ==> 0 <= k && k + p.len() <= s.len(),
{
    crate::text::lemma_rfind_below(s, p, s.len() - p.len() + 1);
}

/// Removes the Discord `<extensions>` blocks from an AIR descriptor (see
/// `strip_extensions`).
pub fn strip_extensions_from_string(xml: &str) -> (r: String)
    ensures
        r@ == strip_extensions(xml@),
        extensions_closes_matched(xml@) && extensions_set_apart(xml@) ==> no_extensions_block(r@),
{
    proof {
        if extensions_closes_matched(xml@) && extensions_set_apart(xml@) {
            lemma_strip_extensions_done(xml@);
        }
    }
    string_of(&strip_extensions_chars(&chars_of(xml)))
}

/// Puts the encrypted local storage block before the last `</application>`
/// (see `insert_storage`).
pub fn insert_encrypted_local_storage(xml: &str) -> (r: String)
    ensures
        r@ == insert_storage(xml@),
{
    string_of(&insert_storage_chars(&chars_of(xml)))
}

/// The descriptor rewritten to the known-good layout: every extensions block
/// removed,
/// encrypted local storage added when missing.
pub fn normalize_air_application_xml(xml: &str) -> (r: String)
    ensures
        r@ == normalized_descriptor(xml@),
{
    let stripped = strip_extensions_chars(&chars_of(xml));
    string_of(&ensure_storage_chars(&stripped))
}

/// Law: adding the storage block twice is adding it once; a descriptor
/// that went through `ensure_storage` is left alone by it.
pub proof fn law_ensure_storage_idempotent(xml: Seq<char>)
    ensures
        ensure_storage(ensure_storage(xml)) == ensure_storage(xml),
{
    if !contains(xml, STORAGE_TAG@) {
        match rfind(xml, APPLICATION_CLOSE@) {
            Some(idx) => {
                lemma_rfind_bound(xml, APPLICATION_CLOSE@);
                reveal_strlit("    <encryptedLocalStorage>\n        <fallbackMode>never</fallbackMode>\n        <storageMode>file</storageMode>\n    </encryptedLocalStorage>\n");
                reveal_strlit("<encryptedLocalStorage>");
                let y = insert_storage(xml);
                let tag = STORAGE_TAG@;
                assert(y.subrange(idx + 4, idx + 4 + tag.len()) =~= tag);
                assert(matches_at(y, tag, idx + 4));
                lemma_find_from(y, tag, 0);
            },
            None => {},
        }
    }
}

/// Law: once normalized, a descriptor that has an `</application>` carries
/// the encrypted local storage settings.
pub proof fn law_normalized_has_storage(xml: Seq<char>)
    requires
        rfind(strip_extensions(xml), APPLICATION_CLOSE@) is Some,
    ensures
        contains(normalized_descriptor(xml), STORAGE_TAG@),
{
    let s = strip_extensions(xml);
    if !contains(s, STORAGE_TAG@) {
        let idx = rfind(s, APPLICATION_CLOSE@)->0;
        lemma_rfind_bound(s, APPLICATION_CLOSE@);
        reveal_strlit("    <encryptedLocalStorage>\n        <fallbackMode>never</fallbackMode>\n        <storageMode>file</storageMode>\n    </encryptedLocalStorage>\n");
        reveal_strlit("<encryptedLocalStorage>");
        let y = insert_storage(s);
        let tag = STORAGE_TAG@;
        assert(y.subrange(idx + 4, idx + 4 + tag.len()) =~= tag);
        assert(matches_at(y, tag, idx + 4));
        lemma_find_from(y, tag, 0);
    }
}

// ---------------------------------------------------------------------------
// Zip entries

/// `u8::to_ascii_lowercase`.
pub open spec fn byte_lower(b: u8) -> u8 {
    if 65 <= b <= 90 {
        (b + 32) as u8
    } else {
        b
    }
}

/// `str::eq_ignore_ascii_case`, which compares the UTF-8 bytes.
pub open spec fn bytes_eq_ignore_case(a: Seq<u8>, b: Seq<u8>) -> bool {
    a.len() == b.len() && forall|i: int| 0 <= i < a.len() ==> byte_lower(a[i]) == byte_lower(b[i])
}

/// Every backslash turned into a slash.
pub open spec fn forward_slashes(b: Seq<u8>) -> Seq<u8> {
    b.map_values(|x: u8| if x == 92 { 47u8 } else { x })
}

/// How many slashes `b` starts with.
pub open spec fn lead_slash_len(b: Seq<u8>) -> nat
    decreases b.len(),
{
    if b.len() > 0 && b[0] == 47 {
        1 + lead_slash_len(b.drop_first())
    } else {
        0
    }
}

/// An entry name with forward slashes and no leading slash.
pub open spec fn normalized_entry(name: Seq<u8>) -> Seq<u8> {
    let f = forward_slashes(name);
    f.skip(lead_slash_len(f) as int)
}

/// Position `i` falls inside a multi-byte character of the UTF-8 text `b`.
pub open spec fn splits_char(b: Seq<u8>, i: int) -> bool {
    0 <= i < b.len() && 0x80 <= b[i] <= 0xbf
}

/// The skip prefixes as UTF-8 bytes.
pub open spec fn skip_bytes(skips: Seq<&str>) -> Seq<Seq<u8>> {
    skips.map_values(|x: &str| x.spec_bytes())
}

/// Whether the normalized entry `norm` is one of `skips` or lies under one
/// of them, ignoring ASCII case and slash direction.
pub open spec fn skip_matches(norm: Seq<u8>, skips: Seq<Seq<u8>>) -> bool
    decreases skips.len(),
{
    if skips.len() == 0 {
        false
    } else {
        let sk = forward_slashes(skips[0]);
        let l: int = sk.len() as int + 1;
        if bytes_eq_ignore_case(norm, sk) {
            true
        } else if norm.len() > l && bytes_eq_ignore_case(norm.take(l), sk.push(47u8)) {
            true
        } else {
            skip_matches(norm, skips.drop_first())
        }
    }
}

/// Whether checking `norm` against `skips` reaches a prefix whose length
/// cuts a character of `norm` in two (where std's string slicing panics).
pub open spec fn skip_cuts_char(norm: Seq<u8>, skips: Seq<Seq<u8>>) -> bool
    decreases skips.len(),
{
    if skips.len() == 0 {
        false
    } else {
        let sk = forward_slashes(skips[0]);
        let l: int = sk.len() as int + 1;
        if bytes_eq_ignore_case(norm, sk) {
            false
        } else if norm.len() > l && splits_char(norm, l) {
            true
        } else if norm.len() > l && bytes_eq_ignore_case(norm.take(l), sk.push(47u8)) {
            false
        } else {
            skip_cuts_char(norm, skips.drop_first())
        }
    }
}

fn lower_byte(b: u8) -> (r: u8)
    ensures
        r == byte_lower(b),
{
    if 65 <= b && b <= 90 {
        b + 32
    } else {
        b
    }
}

fn forward_slashes_exec(b: &[u8]) -> (r: Vec<u8>)
    ensures
        r@ == forward_slashes(b@),
{
    let mut out: Vec<u8> = Vec::new();
    let mut i: usize = 0;
    while i < b.len()
        invariant
            i <= b@.len(),
            out@ == forward_slashes(b@.take(i as int)),
        decreases b@.len() - i,
    {
        let x = b[i];
        out.push(if x == 92 { 47u8 } else { x });
        i += 1;
        assert(out@ =~= forward_slashes(b@.take(i as int)));
    }
    assert(b@.take(b@.len() as int) =~= b@);
    out
}

fn lead_slash_count(b: &Vec<u8>) -> (n: usize)
    ensures
        n == lead_slash_len(b@),
        n <= b@.len(),
{
    let mut i: usize = 0;
    assert(b@.skip(0) =~= b@);
    while i < b.len()
        invariant
            i <= b@.len(),
            lead_slash_len(b@) == i + lead_slash_len(b@.skip(i as int)),
        ensures
            i <= b@.len(),
            lead_slash_len(b@) == i + lead_slash_len(b@.skip(i as int)),
            i < b@.len() ==> b@[i as int] != 47,
        decreases b@.len() - i,
    {
        if b[i] != 47 {
            break;
        }
        assert(b@.skip(i as int).drop_first() =~= b@.skip(i + 1));
        i += 1;
    }
    if i == b.len() {
        assert(b@.skip(i as int) =~= Seq::<u8>::empty());
    }
    i
}

/// Whether the first `n` bytes of `a` equal `b` up to ASCII case.
fn prefix_eq_ignore_case(a: &Vec<u8>, n: usize, b: &Vec<u8>) -> (r: bool)
    requires
        n <= a@.len(),
    ensures
        r == bytes_eq_ignore_case(a@.take(n as int), b@),
{
    if b.len() != n {
        return false;
    }
    let mut i: usize = 0;
    while i < n
        invariant
            n <= a@.len(),
            b@.len() == n,
            i <= n,
            forall|k: int| 0 <= k < i ==> byte_lower(a@[k]) == byte_lower(b@[k]),
        decreases n - i,
    {
        if lower_byte(a[i]) != lower_byte(b[i]) {
            assert(a@.take(n as int)[i as int] == a@[i as int]);
            return false;
        }
        i += 1;
    }
    true
}

fn normalized_entry_exec(name: &str) -> (r: Vec<u8>)
    ensures
        r@ == normalized_entry(name.spec_bytes()),
{
    let f = forward_slashes_exec(name.as_bytes());
    let n = lead_slash_count(&f);
    let mut out: Vec<u8> = Vec::new();
    let mut i: usize = n;
    while i < f.len()
        invariant
            n <= i <= f@.len(),
            out@ == f@.subrange(n as int, i as int),
        decreases f@.len() - i,
    {
        out.push(f[i]);
        i += 1;
        assert(out@ =~= f@.subrange(n as int, i as int));
    }
    assert(out@ =~= f@.skip(n as int));
    out
}

/// Whether a zip entry's path (relative, either slash) is one of
/// `skip_prefixes` or lies under one of them, ignoring ASCII case. Names
/// where a prefix's length would cut a multi-byte character are left out,
/// as std's slicing panics on them.
pub fn should_skip(relative: &str, skip_prefixes: &[&str]) -> (r: bool)
    requires
        !skip_cuts_char(normalized_entry(relative.spec_bytes()), skip_bytes(skip_prefixes@)),
    ensures
        r == skip_matches(normalized_entry(relative.spec_bytes()), skip_bytes(skip_prefixes@)),
{
    let norm = normalized_entry_exec(relative);
    let ghost all = skip_bytes(skip_prefixes@);
    let mut i: usize = 0;
    assert(all.skip(0) =~= all);
    while i < skip_prefixes.len()
        invariant
            norm@ == normalized_entry(relative.spec_bytes()),
            all == skip_bytes(skip_prefixes@),
            i <= skip_prefixes@.len(),
            skip_matches(norm@, all) == skip_matches(norm@, all.skip(i as int)),
            !skip_cuts_char(norm@, all.skip(i as int)),
        decreases skip_prefixes@.len() - i,
    {
        let ghost rest = all.skip(i as int);
        assert(rest[0] == skip_prefixes@[i as int].spec_bytes());
        assert(rest.drop_first() =~= all.skip(i + 1));
        let sk = forward_slashes_exec(skip_prefixes[i].as_bytes());
        if prefix_eq_ignore_case(&norm, norm.len(), &sk) {
            assert(norm@.take(norm@.len() as int) =~= norm@);
            return true;
        }
        assert(norm@.take(norm@.len() as int) =~= norm@);
        let mut with_slash = sk.clone();
        with_slash.push(47u8);
        if norm.len() > with_slash.len() {
            if prefix_eq_ignore_case(&norm, with_slash.len(), &with_slash) {
                return true;
            }
        }
        i += 1;
    }
    false
}

/// Whether checking the entry `relative` against `skip_prefixes` would cut
/// one of its characters in two: the inputs `should_skip` leaves out.
pub fn entry_name_cuts_char(relative: &str, skip_prefixes: &[&str]) -> (r: bool)
    ensures
        r == skip_cuts_char(normalized_entry(relative.spec_bytes()), skip_bytes(skip_prefixes@)),
{
    let norm = normalized_entry_exec(relative);
    let ghost all = skip_bytes(skip_prefixes@);
    let mut i: usize = 0;
    assert(all.skip(0) =~= all);
    while i < skip_prefixes.len()
        invariant
            norm@ == normalized_entry(relative.spec_bytes()),
            all == skip_bytes(skip_prefixes@),
            i <= skip_prefixes@.len(),
            skip_cuts_char(norm@, all) == skip_cuts_char(norm@, all.skip(i as int)),
        decreases skip_prefixes@.len() - i,
    {
        let ghost rest = all.skip(i as int);
        assert(rest[0] == skip_prefixes@[i as int].spec_bytes());
        assert(rest.drop_first() =~= all.skip(i + 1));
        let sk = forward_slashes_exec(skip_prefixes[i].as_bytes());
        assert(norm@.take(norm@.len() as int) =~= norm@);
        if prefix_eq_ignore_case(&norm, norm.len(), &sk) {
            return false;
        }
        let mut with_slash = sk.clone();
        with_slash.push(47u8);
        let l = with_slash.len();
        if norm.len() > l {
            let b = norm[l];
            if 0x80 <= b && b <= 0xbf {
                return true;
            }
            if prefix_eq_ignore_case(&norm, l, &with_slash) {
                return false;
            }
        }
        i += 1;
    }
    assert(all.skip(i as int) =~= Seq::<Seq<u8>>::empty());
    false
}

/// What unpacking does with one zip entry.
#[derive(Clone, Copy, PartialEq, Eq, Structural, Debug)]
pub enum EntryAction {
    /// The entry is under a skipped prefix.
    Skip,
    /// The entry is a directory: create it.
    CreateDir,
    /// The entry is a file: write its contents.
    WriteFile,
}

/// What to do with a zip entry whose safe relative path is `name` (`None`
/// when the entry's path leaves the target directory) and which the archive
/// marks as a directory when `is_dir`.
pub fn unzip_entry_action(name: Option<&str>, is_dir: bool, skip_prefixes: &[&str]) -> (r: Result<
    EntryAction,
    String,
>)
    requires
        name matches Some(n) ==> !skip_cuts_char(
            normalized_entry(n.spec_bytes()),
            skip_bytes(skip_prefixes@),
        ),
    ensures
        name is None ==> (r matches Err(e) && e@ == "Invalid zip entry path"@),
        name matches Some(n) ==> r == Ok::<EntryAction, String>(
            if skip_matches(normalized_entry(n.spec_bytes()), skip_bytes(skip_prefixes@)) {
                EntryAction::Skip
            } else if is_dir || (n@.len() > 0 && n@.last() == '/') {
                EntryAction::CreateDir
            } else {
                EntryAction::WriteFile
            },
        ),
{
    let n = match name {
        Some(n) => n,
        None => return Err("Invalid zip entry path".to_owned()),
    };
    if should_skip(n, skip_prefixes) {
        return Ok(EntryAction::Skip);
    }
    let cs = chars_of(n);
    if is_dir || (cs.len() > 0 && cs[cs.len() - 1] == '/') {
        Ok(EntryAction::CreateDir)
    } else {
        Ok(EntryAction::WriteFile)
    }
}

// ---------------------------------------------------------------------------
// Download sources

/// Where the AIR runtime and the client patches are published.
pub const ASSET_BASE: &'static str = "https://raw.githubusercontent.com/LilithRainbows/HabboCustomLauncher/main/Assets";

/// The AirPlus client build.
pub const AIRPLUS_SWF_URL: &'static str = "https://github.com/LilithRainbows/HabboAirPlus/releases/download/latest/HabboAir.swf";

/// The latest bobba-client release, from GitHub's API.
pub const AIRBOBBA_RELEASE_URL: &'static str = "https://api.github.com/repos/Bobba-Packet/bobba-client/releases/latest";

/// The AIR runtime patch for the given `std::env::consts::ARCH`.
pub open spec fn spec_air_patch_asset(arch: Seq<char>) -> Seq<char> {
    if arch == "x86"@ {
        "HabboAirWindowsPatch_x86.zip"@
    } else {
        "HabboAirWindowsPatch_x64.zip"@
    }
}

/// The AIR runtime patch to use on a machine of architecture `arch` (the
/// value of `std::env::consts::ARCH`).
pub fn air_patch_asset(arch: &str) -> (r: &'static str)
    ensures
        r@ == spec_air_patch_asset(arch@),
{
    let x86 = chars_of("x86");
    if chars_eq(&chars_of(arch), &x86) {
        "HabboAirWindowsPatch_x86.zip"
    } else {
        "HabboAirWindowsPatch_x64.zip"
    }
}

/// The download address of the published asset `name`.
pub fn asset_url(name: &str) -> (r: String)
    ensures
        r@ == ASSET_BASE@ + "/"@ + name@,
{
    let base = chars_of(ASSET_BASE);
    let slash = chars_of("/");
    let with_slash = concat(&base, &slash);
    string_of(&concat(&with_slash, &chars_of(name)))
}

/// The hotel host with surrounding whitespace and any leading `https://`
/// or `http://` removed.
pub open spec fn bare_host(hotel_host: Seq<char>) -> Seq<char> {
    strip_prefix_all(strip_prefix_all(trim(hotel_host), "https://"@), "http://"@)
}

/// The official client manifest of a hotel:
/// `https://<host>/gamedata/clienturls`.
pub fn official_clienturls_url(hotel_host: &str) -> (r: String)
    ensures
        r@ == "https://"@ + bare_host(hotel_host@) + "/gamedata/clienturls"@,
{
    let trimmed = trim_chars(&chars_of(hotel_host), &CharSet::Whitespace);
    let a = strip_prefix_all_exec(&trimmed, &chars_of("https://"));
    let host = strip_prefix_all_exec(&a, &chars_of("http://"));
    let head = concat(&chars_of("https://"), &host);
    string_of(&concat(&head, &chars_of("/gamedata/clienturls")))
}

/// Forces the SWF file version byte (the fourth byte of the header).
/// Fails, leaving the data as it was, when there are fewer than four bytes.
pub fn set_swf_version(data: &mut Vec<u8>, version: u8) -> (r: Result<(), String>)
    ensures
        old(data)@.len() < 4 ==> (r matches Err(e) && e@ == "HabboAir.swf is too small"@
            && final(data)@ == old(data)@),
        old(data)@.len() >= 4 ==> (r is Ok && final(data)@ == old(data)@.update(3, version)),
{
    if data.len() < 4 {
        return Err("HabboAir.swf is too small".to_owned());
    }
    data.set(3, version);
    Ok(())
}

// ---------------------------------------------------------------------------
// Version identities

/// Characters that cannot stand in a Windows folder name.
pub open spec fn is_path_reserved(c: char) -> bool {
    c == '/' || c == '\\' || c == ':' || c == '*' || c == '?' || c == '"' || c == '<' || c == '>'
        || c == '|'
}

/// A folder name for a version: reserved characters become `_`; empty
/// text becomes `latest`.
pub open spec fn sanitized(raw: Seq<char>) -> Seq<char> {
    let safe = raw.map_values(|c: char| if is_path_reserved(c) { '_' } else { c });
    if safe.len() == 0 {
        "latest"@
    } else {
        safe
    }
}

/// Turns a version identity into a usable folder name (see `sanitized`).
pub fn sanitize_version_folder(raw: &str) -> (r: String)
    ensures
        r@ == sanitized(raw@),
{
    let cs = chars_of(raw);
    let mut out: Vec<char> = Vec::new();
    let mut i: usize = 0;
    while i < cs.len()
        invariant
            cs@ == raw@,
            i <= cs@.len(),
            out@ == cs@.take(i as int).map_values(
                |c: char|
                    if is_path_reserved(c) {
                        '_'
                    } else {
                        c
                    },
            ),
        decreases cs@.len() - i,
    {
        let c = cs[i];
        let reserved = c == '/' || c == '\\' || c == ':' || c == '*' || c == '?' || c == '"' || c
            == '<' || c == '>' || c == '|';
        out.push(if reserved { '_' } else { c });
        i += 1;
        assert(out@ =~= cs@.take(i as int).map_values(
            |c: char|
                if is_path_reserved(c) {
                    '_'
                } else {
                    c
                },
        ));
    }
    assert(cs@.take(cs@.len() as int) =~= cs@);
    if out.len() == 0 {
        "latest".to_owned()
    } else {
        string_of(&out)
    }
}

/// Law: a sanitized folder name is never empty, holds no reserved
/// character, and sanitizing it again changes nothing.
pub proof fn law_sanitized_is_stable(raw: Seq<char>)
    ensures
        sanitized(raw).len() > 0,
        forall|i: int| 0 <= i < sanitized(raw).len() ==> !is_path_reserved(#[trigger] sanitized(raw)[i]),
        sanitized(sanitized(raw)) == sanitized(raw),
{
    reveal_strlit("latest");
    let s = sanitized(raw);
    assert(s.map_values(|c: char| if is_path_reserved(c) { '_' } else { c }) =~= s);
}

/// Law: builds published at different times get different version
/// folders under the same release tag, so a build republished under an
/// unchanged tag is still downloaded.
pub proof fn law_new_stamp_new_version(tag: Seq<char>, t1: i64, t2: i64)
    requires
        t1 != t2,
    ensures
        sanitized(tag + "_"@ + spec_version_stamp(Some(t1), Seq::empty())) != sanitized(
            tag + "_"@ + spec_version_stamp(Some(t2), Seq::empty()),
        ),
{
    reveal_strlit("_");
    let d1 = decimal_i64(t1 as int);
    let d2 = decimal_i64(t2 as int);
    crate::text::lemma_decimal_i64_injective(t1 as int, t2 as int);
    crate::text::lemma_decimal_i64_injective(t2 as int, t1 as int);
    let s1 = tag + "_"@ + d1;
    let s2 = tag + "_"@ + d2;
    let f = |c: char| if is_path_reserved(c) { '_' } else { c };
    if sanitized(s1) == sanitized(s2) {
        assert(sanitized(s1) == s1.map_values(f));
        assert(sanitized(s2) == s2.map_values(f));
        assert(s1.len() == s2.len());
        assert(d1.len() == d2.len());
        let k = tag.len() + 1;
        assert forall|i: int| 0 <= i < d1.len() implies d1[i] == d2[i] by {
            assert(s1[k + i] == d1[i]);
            assert(s2[k + i] == d2[i]);
            assert(s1.map_values(f)[k + i] == s2.map_values(f)[k + i]);
            assert(crate::text::is_ascii_digit(d1[i]) || d1[i] == '-');
            assert(crate::text::is_ascii_digit(d2[i]) || d2[i] == '-');
        }
        assert(d1 =~= d2);
    }
}

/// The version of a build published at `updated_at`: its Unix timestamp
/// when `timestamp` (what RFC 3339 parsing of it gave) is known, else the
/// sanitized text.
pub open spec fn spec_version_stamp(timestamp: Option<i64>, updated_at: Seq<char>) -> Seq<char> {
    match timestamp {
        Some(ts) => decimal_i64(ts as int),
        None => sanitized(updated_at),
    }
}

/// The stamp of an asset published at `updated_at`, given what RFC 3339
/// parsing of it gave.
pub fn version_stamp_from(timestamp: Option<i64>, updated_at: &str) -> (r: String)
    ensures
        r@ == spec_version_stamp(timestamp, updated_at@),
{
    match timestamp {
        Some(ts) => string_of(&i64_to_decimal(ts)),
        None => sanitize_version_folder(updated_at),
    }
}

/// The stamp of an asset published at `updated_at` (an RFC 3339 date as
/// GitHub writes it): its Unix timestamp, or the sanitized text when it
/// does not parse.
pub fn asset_version_stamp(updated_at: &str) -> (r: String)
    ensures
        r@ == spec_version_stamp(rfc3339_timestamp(updated_at@), updated_at@),
{
    let ts = parse_rfc3339_timestamp(updated_at);
    version_stamp_from(ts, updated_at)
}

/// The entity tag made safe for a folder name: quotes around it removed,
/// every non-alphanumeric character turned into `_`.
pub open spec fn etag_safe(etag: Seq<char>) -> Seq<char> {
    trim_set(etag, CharSet::Only('"')).map_values(
        |c: char|
            if is_ascii_alphanumeric(c) {
                c
            } else {
                '_'
            },
    )
}

/// The version of a SWF build from the answer to a `HEAD` request: the
/// `Last-Modified` timestamp (`last_modified_ts`, what RFC 2822 parsing of
/// the header gave) when known, else `etag_<tag>` from a non-empty
/// `ETag`, else `latest`; always `latest` when the request failed.
pub open spec fn spec_swf_version(
    success: bool,
    last_modified_ts: Option<i64>,
    etag: Option<Seq<char>>,
) -> Seq<char> {
    if !success {
        "latest"@
    } else if last_modified_ts is Some {
        decimal_i64(last_modified_ts->0 as int)
    } else if etag is Some && trim_set(etag->0, CharSet::Only('"')).len() > 0 {
        "etag_"@ + etag_safe(etag->0)
    } else {
        "latest"@
    }
}

/// The SWF build's version from the `HEAD` answer, given the parsed
/// `Last-Modified` timestamp.
pub fn swf_version_from_parts(success: bool, last_modified_ts: Option<i64>, etag: Option<&str>) -> (r:
    String)
    ensures
        r@ == spec_swf_version(
            success,
            last_modified_ts,
            match etag {
                Some(e) => Some(e@),
                None => None,
            },
        ),
{
    if success {
        if let Some(ts) = last_modified_ts {
            return string_of(&i64_to_decimal(ts));
        }
        if let Some(e) = etag {
            let tag = trim_chars(&chars_of(e), &CharSet::Only('"'));
            if tag.len() > 0 {
                let mut safe: Vec<char> = Vec::new();
                let mut i: usize = 0;
                while i < tag.len()
                    invariant
                        i <= tag@.len(),
                        safe@ == tag@.take(i as int).map_values(
                            |c: char|
                                if is_ascii_alphanumeric(c) {
                                    c
                                } else {
                                    '_'
                                },
                        ),
                    decreases tag@.len() - i,
                {
                    let c = tag[i];
                    safe.push(if is_alphanumeric(c) { c } else { '_' });
                    i += 1;
                    assert(safe@ =~= tag@.take(i as int).map_values(
                        |c: char|
                            if is_ascii_alphanumeric(c) {
                                c
                            } else {
                                '_'
                            },
                    ));
                }
                assert(tag@.take(tag@.len() as int) =~= tag@);
                return string_of(&concat(&chars_of("etag_"), &safe));
            }
        }
    }
    "latest".to_owned()
}

/// The SWF build's version from the answer to a `HEAD` request: whether it
/// succeeded, and its `Last-Modified` and `ETag` header texts.
pub fn swf_version_from_head(success: bool, last_modified: Option<&str>, etag: Option<&str>) -> (r:
    String)
    ensures
        r@ == spec_swf_version(
            success,
            match last_modified {
                Some(lm) => rfc2822_timestamp(lm@),
                None => None,
            },
            match etag {
                Some(e) => Some(e@),
                None => None,
            },
        ),
{
    let ts = if success {
        match last_modified {
            Some(lm) => parse_rfc2822_timestamp(lm),
            None => None,
        }
    } else {
        None
    };
    swf_version_from_parts(success, ts, etag)
}

/// A release asset as GitHub describes it.
pub struct GhAsset {
    pub name: String,
    pub updated_at: String,
    pub browser_download_url: String,
}

/// Where to get a client build and under which version it installs.
pub struct RemoteClient {
    /// Folder and `VERSION.txt` identity; changes with each new build.
    pub version: String,
    /// `HabboAir.swf` (or, for Classic, the client zip) download address.
    pub client_url: String,
    /// The extra patch zip (AirBobba only).
    pub patch_url: Option<String>,
}

/// The index of the first asset named `name`, ignoring ASCII case.
pub open spec fn find_asset(assets: Seq<GhAsset>, name: Seq<char>) -> Option<int>
    decreases assets.len(),
{
    if assets.len() == 0 {
        None
    } else if eq_ignore_ascii_case(assets[0].name@, name) {
        Some(0)
    } else {
        match find_asset(assets.drop_first(), name) {
            Some(i) => Some(i + 1),
            None => None,
        }
    }
}

proof fn lemma_find_asset(assets: Seq<GhAsset>, name: Seq<char>)
    ensures
        find_asset(assets, name) matches Some(i) ==> 0 <= i < assets.len() && eq_ignore_ascii_case(
            assets[i].name@,
            name,
        ),
    decreases assets.len(),
{
    if assets.len() > 0 && !eq_ignore_ascii_case(assets[0].name@, name) {
        lemma_find_asset(assets.drop_first(), name);
    }
}

fn find_asset_exec(assets: &Vec<GhAsset>, name: &str) -> (r: Option<usize>)
    ensures
        r matches Some(i) ==> find_asset(assets@, name@) == Some(i as int),
        r is None ==> find_asset(assets@, name@) is None,
{
    let wanted = chars_of(name);
    let mut i: usize = 0;
    assert(assets@.skip(0) =~= assets@);
    while i < assets.len()
        invariant
            wanted@ == name@,
            i <= assets@.len(),
            find_asset(assets@, name@) == match find_asset(assets@.skip(i as int), name@) {
                Some(j) => Some(j + i),
                None => None::<int>,
            },
        decreases assets@.len() - i,
    {
        let ghost rest = assets@.skip(i as int);
        assert(rest[0] == assets@[i as int]);
        if eq_ignore_ascii_case_exec(&chars_of(assets[i].name.as_str()), &wanted) {
            return Some(i);
        }
        assert(rest.drop_first() =~= assets@.skip(i + 1));
        i += 1;
    }
    assert(assets@.skip(i as int) =~= Seq::<GhAsset>::empty());
    None
}

/// The remote client of the latest bobba-client release, from its tag and
/// assets; its version also carries the SWF asset's stamp, so a build
/// republished under the same tag still counts as new.
pub open spec fn spec_bobba_remote(tag_name: Seq<char>, assets: Seq<GhAsset>) -> Result<
    (Seq<char>, Seq<char>, Option<Seq<char>>),
    Seq<char>,
> {
    let tag = trim(tag_name);
    if tag.len() == 0 {
        Err("bobba-client latest release has an empty tag"@)
    } else {
        match find_asset(assets, "HabboAir.swf"@) {
            None => Err("bobba-client latest release is missing HabboAir.swf"@),
            Some(s) => match find_asset(assets, "HabboAirBobbaPatch.zip"@) {
                None => Err("bobba-client latest release is missing HabboAirBobbaPatch.zip"@),
                Some(p) => Ok(
                    (
                        sanitized(
                            tag + "_"@ + spec_version_stamp(
                                rfc3339_timestamp(assets[s].updated_at@),
                                assets[s].updated_at@,
                            ),
                        ),
                        assets[s].browser_download_url@,
                        Some(assets[p].browser_download_url@),
                    ),
                ),
            },
        }
    }
}

pub open spec fn remote_view(r: RemoteClient) -> (Seq<char>, Seq<char>, Option<Seq<char>>) {
    (r.version@, r.client_url@, opt_view(r.patch_url))
}

/// The answer to the bobba-client latest-release request, by its HTTP status
/// `code` and the status as text (`status`, such as `404 Not Found`): a
/// success status (2xx) goes on to the release itself; any other is the
/// error `bobba-client releases request failed (<status>)`.
pub fn bobba_release_status(code: u16, status: &str) -> (r: Result<(), String>)
    ensures
        200 <= code <= 299 ==> r is Ok,
        !(200 <= code <= 299) ==> (r matches Err(e) && e@ == "bobba-client releases request failed ("@
            + status@ + ")"@),
{
    if 200 <= code && code <= 299 {
        Ok(())
    } else {
        let head = concat(&chars_of("bobba-client releases request failed ("), &chars_of(status));
        Err(string_of(&concat(&head, &chars_of(")"))))
    }
}

/// The bobba-client remote from the latest release's tag and assets.
pub fn bobba_remote_from_release(tag_name: &str, assets: &Vec<GhAsset>) -> (r: Result<
    RemoteClient,
    String,
>)
    ensures
        match (r, spec_bobba_remote(tag_name@, assets@)) {
            (Ok(rc), Ok(v)) => remote_view(rc) == v,
            (Err(e), Err(m)) => e@ == m,
            _ => false,
        },
{
    let tag = trim_chars(&chars_of(tag_name), &CharSet::Whitespace);
    if tag.len() == 0 {
        return Err("bobba-client latest release has an empty tag".to_owned());
    }
    let s = match find_asset_exec(assets, "HabboAir.swf") {
        Some(i) => i,
        None => return Err("bobba-client latest release is missing HabboAir.swf".to_owned()),
    };
    let p = match find_asset_exec(assets, "HabboAirBobbaPatch.zip") {
        Some(i) => i,
        None => return Err(
            "bobba-client latest release is missing HabboAirBobbaPatch.zip".to_owned(),
        ),
    };
    proof {
        lemma_find_asset(assets@, "HabboAir.swf"@);
        lemma_find_asset(assets@, "HabboAirBobbaPatch.zip"@);
    }
    let stamp = asset_version_stamp(assets[s].updated_at.as_str());
    let with_sep = concat(&tag, &chars_of("_"));
    let raw = string_of(&concat(&with_sep, &chars_of(stamp.as_str())));
    let version = sanitize_version_folder(raw.as_str());
    Ok(
        RemoteClient {
            version,
            client_url: assets[s].browser_download_url.clone(),
            patch_url: Some(assets[p].browser_download_url.clone()),
        },
    )
}

/// The version recorded in an install's `VERSION.txt` (`contents`, `None`
/// when it could not be read): the trimmed text, unless that is empty.
pub open spec fn spec_installed_version(contents: Option<Seq<char>>) -> Option<Seq<char>> {
    match contents {
        None => None,
        Some(c) => if trim(c).len() == 0 {
            None
        } else {
            Some(trim(c))
        },
    }
}

/// The version recorded in an install, from the text of its `VERSION.txt`.
pub fn read_installed_version(contents: Option<&str>) -> (r: Option<String>)
    ensures
        opt_view(r) == spec_installed_version(
            match contents {
                Some(c) => Some(c@),
                None => None,
            },
        ),
{
    let c = match contents {
        Some(c) => c,
        None => return None,
    };
    let v = trim_chars(&chars_of(c), &CharSet::Whitespace);
    if v.len() == 0 {
        None
    } else {
        Some(string_of(&v))
    }
}

/// True when the install on disk (`files`, and `version_txt`, the text of
/// its `VERSION.txt`) is complete and is the build `remote_version`.
pub fn is_version_current(files: &InstallFiles, version_txt: Option<&str>, remote_version: &str) -> (r:
    bool)
    ensures
        r == (healthy(*files) && spec_installed_version(
            match version_txt {
                Some(c) => Some(c@),
                None => None,
            },
        ) == Some(remote_version@)),
{
    if !is_install_healthy(files) {
        return false;
    }
    match read_installed_version(version_txt) {
        Some(v) => chars_eq(&chars_of(v.as_str()), &chars_of(remote_version)),
        None => false,
    }
}

/// The error of an install that cannot be repaired.
pub open spec fn incomplete_install() -> Seq<char> {
    "Client install is incomplete"@
}

/// Before repairing an install: it needs `Habbo.exe` and `HabboAir.swf`.
pub fn repair_precheck(files: &InstallFiles) -> (r: Result<(), String>)
    ensures
        (files.habbo_exe && files.habbo_swf) ==> r is Ok,
        !(files.habbo_exe && files.habbo_swf) ==> (r matches Err(e) && e@ == incomplete_install()),
{
    if !files.habbo_exe || !files.habbo_swf {
        return Err("Client install is incomplete".to_owned());
    }
    Ok(())
}

/// After rewriting the descriptor: the install must now be complete.
pub fn repair_outcome(files: &InstallFiles) -> (r: Result<(), String>)
    ensures
        healthy(*files) ==> r is Ok,
        !healthy(*files) ==> (r matches Err(e) && e@ == incomplete_install()),
{
    if is_install_healthy(files) {
        Ok(())
    } else {
        Err("Client install is incomplete".to_owned())
    }
}

/// How to get a launchable install of a client.
#[derive(Clone, Copy, PartialEq, Eq, Structural, Debug)]
pub enum InstallChoice {
    /// The recorded version is installed and complete.
    UseRecorded,
    /// The recorded version is installed but incomplete: try repairing it,
    /// and install afresh if that fails.
    RepairRecorded,
    /// No version is recorded: install afresh.
    InstallFresh,
}

/// The way to a launchable install, from whether a version is recorded and
/// whether its install (`files`) is complete.
pub fn install_choice(has_recorded_version: bool, files: &InstallFiles) -> (r: InstallChoice)
    ensures
        !has_recorded_version ==> r == InstallChoice::InstallFresh,
        has_recorded_version && healthy(*files) ==> r == InstallChoice::UseRecorded,
        has_recorded_version && !healthy(*files) ==> r == InstallChoice::RepairRecorded,
{
    if !has_recorded_version {
        InstallChoice::InstallFresh
    } else if is_install_healthy(files) {
        InstallChoice::UseRecorded
    } else {
        InstallChoice::RepairRecorded
    }
}

/// Law: the version an install writes to `VERSION.txt` reads back as
/// itself, so a complete install of build `v` counts as current for `v`
/// (and only for `v`), when `v` is not empty and has no surrounding
/// whitespace.
pub proof fn law_written_version_is_current(v: Seq<char>, remote: Seq<char>, files: InstallFiles)
    requires
        v.len() > 0,
        !crate::text::is_unicode_whitespace(v[0]),
        !crate::text::is_unicode_whitespace(v.last()),
        healthy(files),
    ensures
        spec_installed_version(Some(v)) == Some(v),
        (healthy(files) && spec_installed_version(Some(v)) == Some(remote)) <==> remote == v,
{
    assert(crate::text::lead_len(v, CharSet::Whitespace) == 0);
    assert(v.skip(0) =~= v);
    assert(crate::text::trail_len(v, CharSet::Whitespace) == 0);
    assert(v.take(v.len() as int) =~= v);
}

} // verus!

