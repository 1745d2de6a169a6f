//! Support links in free text: which pieces of a text look like an address,
//! and which of those point at a funding platform.
//!
//! Finding the pieces is left to `regex` and reading an address to `url`.
//! Which addresses count, and how a link is cleaned of the punctuation that
//! markdown leaves behind it, is decided here.

use vstd::prelude::*;
use regex::Regex;
use url::Url;
use crate::text::chars_of;
use crate::text::contains_text;
use crate::text::is_substring;
use crate::text::occurs_at;
use crate::text::same_text;
use crate::text::texts;

verus! {

/// `regex::Regex`, an expression built from a pattern. Nothing of its inside
/// is known here; it is built once and carried to where it is used.
#[verifier::external_type_specification]
#[verifier::external_body]
pub struct ExRegex(regex::Regex);

/// `regex::Error`, with which a pattern is rejected.
#[verifier::external_type_specification]
#[verifier::external_body]
pub struct ExRegexError(regex::Error);

/// `url::ParseError`, with which a text is rejected as an address.
#[verifier::external_type_specification]
#[verifier::external_body]
pub struct ExParseError(url::ParseError);

/// The expression that `Regex::new` builds from a pattern, or `None` where
/// it rejects the pattern.
pub uninterp spec fn regex_compiled(pattern: Seq<char>) -> Option<Regex>;

/// The pieces of a text that an expression matches: each the whole of one
/// match, in the order in which `Regex::captures_iter` finds them.
pub uninterp spec fn regex_matches(re: Regex, text: Seq<char>) -> Seq<Seq<char>>;

/// The host that `Url::host_str` gives for the address that `Url::parse`
/// reads from a text: `None` where the text is no absolute address, and
/// `Some(None)` where the address has no host.
pub uninterp spec fn url_host(text: Seq<char>) -> Option<Option<Seq<char>>>;

/// Calls `Regex::new`. Trusted: an `Ok` carries the expression that
/// `regex_compiled` names for the pattern, and an `Err` comes exactly where
/// `regex_compiled` is `None`.
#[verifier::external_body]
fn compile(pattern: &str) -> (r: Result<Regex, regex::Error>)
    ensures
        match r {
            Ok(re) => regex_compiled(pattern@) == Some(re),
            Err(_) => regex_compiled(pattern@) is None,
        },
{
    Regex::new(pattern)
}

/// Calls `Regex::captures_iter` and copies the whole of each match out.
/// Trusted: the result is what `regex_matches` names for the expression and
/// the text, and each match is a part of the text.
#[verifier::external_body]
fn whole_matches(re: &Regex, text: &str) -> (r: Vec<String>)
    ensures
        texts(r@) == regex_matches(*re, text@),
        forall|i: int| 0 <= i < r@.len() ==> is_substring(text@, (#[trigger] r@[i])@),
{
    re.captures_iter(text).map(|found| String::from(&found[0])).collect()
}

/// Reads the address with `Url::parse` and calls `Url::host_str`. Trusted:
/// an `Ok` carries the host that `url_host` names for the text, and an `Err`
/// comes exactly where `url_host` is `None`.
#[verifier::external_body]
fn host_of(text: &str) -> (r: Result<Option<String>, url::ParseError>)
    ensures
        match r {
            Ok(Some(host)) => url_host(text@) == Some(Some(host@)),
            Ok(None) => url_host(text@) == Some(None::<Seq<char>>),
            Err(_) => url_host(text@) is None,
        },
{
    let address = Url::parse(text)?;
    Ok(address.host_str().map(String::from))
}

/// The pattern by which addresses are found in free text: `http` or `https`,
/// a host with a dot in it, and whatever of a path and a query follows.
pub const URL_PATTERN: &'static str =
    r"https?://(www\.)?[-a-zA-Z0-9@:%._\+~#=]{1,256}\.[a-zA-Z0-9()]{1,6}\b([-a-zA-Z0-9()@:%_\+.~#?&//=]*)";

/// The hosts of the funding platforms.
pub open spec fn support_websites() -> Seq<Seq<char>> {
    seq![
        "opencollective.com"@,
        "www.patreon.com"@,
        "patreon.com"@,
        "ko-fi.com"@,
        "tidelift.com"@,
        "www.buymeacoffee.com"@,
        "paypal.me"@,
        "otechie.com"@,
        "liberapay.com"@,
        "funding.communitybridge.org"@,
        "crowdfunding.lfx.linuxfoundation.org"@,
    ]
}

/// Pieces of addresses that lie on a funding platform and ask for no
/// support.
pub open spec fn blocklist() -> Seq<Seq<char>> {
    seq!["opencollective.com/debug"@, "tidelift.com/security"@]
}

/// The host is that of a funding platform, letter for letter.
pub open spec fn allowlisted(host: Seq<char>) -> bool {
    exists|i: int| 0 <= i < support_websites().len() && #[trigger] support_websites()[i] == host
}

/// The text holds an entry of the blocklist.
pub open spec fn blocklisted(url: Seq<char>) -> bool {
    exists|i: int| 0 <= i < blocklist().len() && is_substring(url, #[trigger] blocklist()[i])
}

/// A piece of text counts as a support link with the host that was read
/// from it: it holds no entry of the blocklist, it has a host, and the host
/// is that of a funding platform.
pub open spec fn host_accepted(url: Seq<char>, host: Option<Seq<char>>) -> bool {
    !blocklisted(url) && match host {
        Some(h) => allowlisted(h),
        None => false,
    }
}

/// The host that is read from a piece of text: `None` where the text is no
/// absolute address or the address has no host.
pub open spec fn host_read(url: Seq<char>) -> Option<Seq<char>> {
    match url_host(url) {
        Some(host) => host,
        None => None,
    }
}

/// A piece of text counts as a support link.
pub open spec fn link_accepted(url: Seq<char>) -> bool {
    host_accepted(url, host_read(url))
}

/// Whether the host is that of a funding platform.
pub fn is_support_host(host: &str) -> (ok: bool)
    ensures
        ok == allowlisted(host@),
{
    let hosts: Vec<&'static str> = vec![
        "opencollective.com",
        "www.patreon.com",
        "patreon.com",
        "ko-fi.com",
        "tidelift.com",
        "www.buymeacoffee.com",
        "paypal.me",
        "otechie.com",
        "liberapay.com",
        "funding.communitybridge.org",
        "crowdfunding.lfx.linuxfoundation.org",
    ];
    assert(hosts@.len() == support_websites().len());
    assert(forall|k: int| 0 <= k < hosts@.len() ==> hosts@[k]@ == support_websites()[k]);
    let mut i: usize = 0;
    while i < hosts.len()
        invariant
            i <= hosts.len(),
            hosts@.len() == support_websites().len(),
            forall|k: int| 0 <= k < hosts@.len() ==> hosts@[k]@ == support_websites()[k],
            forall|k: int| 0 <= k < i ==> support_websites()[k] != host@,
        decreases hosts.len() - i,
    {
        if same_text(hosts[i], host) {
            assert(support_websites()[i as int] == host@);
            return true;
        }
        i += 1;
    }
    false
}

/// Whether the text holds an entry of the blocklist.
pub fn is_blocklisted(url: &str) -> (hit: bool)
    ensures
        hit == blocklisted(url@),
{
    let entries: Vec<&'static str> = vec!["opencollective.com/debug", "tidelift.com/security"];
    assert(entries@.len() == blocklist().len());
    assert(forall|k: int| 0 <= k < entries@.len() ==> entries@[k]@ == blocklist()[k]);
    let mut i: usize = 0;
    while i < entries.len()
        invariant
            i <= entries.len(),
            entries@.len() == blocklist().len(),
            forall|k: int| 0 <= k < entries@.len() ==> entries@[k]@ == blocklist()[k],
            forall|k: int| 0 <= k < i ==> !is_substring(url@, blocklist()[k]),
        decreases entries.len() - i,
    {
        if contains_text(url, entries[i]) {
            assert(is_substring(url@, blocklist()[i as int]));
            return true;
        }
        i += 1;
    }
    false
}

/// Whether a piece of text counts as a support link. The blocklist is asked
/// first: a text that holds one of its entries is turned down whatever its
/// host.
pub fn check_host(url: &str) -> (ok: bool)
    ensures
        ok == link_accepted(url@),
{
    if is_blocklisted(url) {
        return false;
    }
    match host_of(url) {
        Ok(Some(host)) => is_support_host(host.as_str()),
        Ok(None) => false,
        Err(_) => false,
    }
}

/// A character that markdown leaves behind a link.
pub open spec fn is_link_tail(c: char) -> bool {
    c == ')' || c == '.'
}

/// A link without the `)` and `.` at its end.
pub open spec fn trimmed(url: Seq<char>) -> Seq<char>
    decreases url.len(),
{
    if url.len() > 0 && is_link_tail(url.last()) {
        trimmed(url.drop_last())
    } else {
        url
    }
}

/// What is cut from a link is its longest end made of `)` and `.`: what
/// stays is the beginning of the link, it does not end in either character,
/// and every character behind it is one of the two.
pub proof fn lemma_trimmed(url: Seq<char>)
    ensures
        trimmed(url).is_prefix_of(url),
        trimmed(url).len() > 0 ==> !is_link_tail(trimmed(url).last()),
        forall|i: int| trimmed(url).len() <= i < url.len() ==> is_link_tail(#[trigger] url[i]),
        trimmed(trimmed(url)) == trimmed(url),
    decreases url.len(),
{
    if url.len() > 0 && is_link_tail(url.last()) {
        lemma_trimmed(url.drop_last());
        let kept = trimmed(url);
        assert(kept =~= url.subrange(0, kept.len() as int)) by {
            assert(kept =~= url.drop_last().subrange(0, kept.len() as int));
        }
        assert forall|i: int| kept.len() <= i < url.len() implies is_link_tail(
            #[trigger] url[i],
        ) by {
            if i < url.len() - 1 {
                assert(url[i] == url.drop_last()[i]);
            }
        }
    } else {
        assert(url =~= url.subrange(0, url.len() as int));
    }
}

/// Cuts the `)` and `.` from the end of a link.
pub fn trim_link(url: &str) -> (link: String)
    ensures
        link@ == trimmed(url@),
{
    let chars = chars_of(url);
    let mut keep: usize = chars.len();
    assert(chars@.take(keep as int) =~= url@);
    while keep > 0 && (chars[keep - 1] == ')' || chars[keep - 1] == '.')
        invariant
            chars@ == url@,
            keep <= chars.len(),
            trimmed(url@) == trimmed(chars@.take(keep as int)),
        decreases keep,
    {
        assert(chars@.take(keep as int).drop_last() =~= chars@.take(keep - 1));
        keep -= 1;
    }
    let kept = url.substring_char(0, keep);
    assert(kept@ =~= chars@.take(keep as int));
    String::from_str(kept)
}

/// The support links among the pieces of text: each piece that counts, in
/// order, without the `)` and `.` at its end. A piece is judged as it was
/// found and cut afterwards.
pub open spec fn accepted_links(candidates: Seq<Seq<char>>) -> Seq<Seq<char>>
    decreases candidates.len(),
{
    if candidates.len() == 0 {
        Seq::empty()
    } else if link_accepted(candidates.last()) {
        accepted_links(candidates.drop_last()).push(trimmed(candidates.last()))
    } else {
        accepted_links(candidates.drop_last())
    }
}

/// Picks the support links out of the pieces of text that look like an
/// address.
pub fn select_links(candidates: &Vec<String>) -> (links: Vec<String>)
    ensures
        texts(links@) == accepted_links(texts(candidates@)),
{
    let mut links: Vec<String> = Vec::new();
    let ghost all = texts(candidates@);
    let mut i: usize = 0;
    assert(all.take(0) =~= Seq::<Seq<char>>::empty());
    assert(texts(links@) =~= Seq::<Seq<char>>::empty());
    while i < candidates.len()
        invariant
            i <= candidates.len(),
            all == texts(candidates@),
            texts(links@) == accepted_links(all.take(i as int)),
        decreases candidates.len() - i,
    {
        let ghost so_far = texts(links@);
        proof {
            assert(all.take(i + 1).drop_last() =~= all.take(i as int));
            assert(all.take(i + 1).last() == candidates@[i as int]@);
        }
        if check_host(candidates[i].as_str()) {
            links.push(trim_link(candidates[i].as_str()));
            assert(texts(links@) =~= so_far.push(trimmed(candidates@[i as int]@)));
        }
        i += 1;
    }
    assert(all.take(candidates.len() as int) =~= all);
    links
}

/// The support links that an expression finds in a text.
pub open spec fn links_by(re: Regex, text: Seq<char>) -> Seq<Seq<char>> {
    accepted_links(regex_matches(re, text))
}

/// Why no links could be looked for.
#[derive(Debug, PartialEq, Eq, Clone, Copy)]
pub enum LinkError {
    /// The pattern by which addresses are found was rejected.
    Pattern,
}

/// Builds the expression for a pattern. It is built once and used for as
/// many texts as there are.
pub fn link_finder(pattern: &str) -> (r: Result<Regex, LinkError>)
    ensures
        match r {
            Ok(re) => regex_compiled(pattern@) == Some(re),
            Err(e) => regex_compiled(pattern@) is None && e == LinkError::Pattern,
        },
{
    match compile(pattern) {
        Ok(re) => Ok(re),
        Err(_) => Err(LinkError::Pattern),
    }
}

/// The support links that an expression finds in a text, in the order in
/// which they stand in it. Each of them is a part of the text.
pub fn find_links(re: &Regex, text: &str) -> (links: Vec<String>)
    ensures
        texts(links@) == links_by(*re, text@),
        forall|i: int| 0 <= i < links@.len() ==> is_substring(text@, (#[trigger] links@[i])@),
{
    let candidates = whole_matches(re, text);
    let links = select_links(&candidates);
    proof {
        let pieces = texts(candidates@);
        assert forall|i: int| 0 <= i < links@.len() implies is_substring(
            text@,
            (#[trigger] links@[i])@,
        ) by {
            assert(texts(links@)[i] == links@[i]@);
            let k = lemma_links_are_cut_pieces(pieces, i);
            assert(pieces[k] == candidates@[k]@);
            lemma_cut_piece_is_part(text@, pieces[k]);
        }
    }
    links
}

/// Each support link is one of the pieces without the `)` and `.` at its
/// end, and that piece counts as a support link. The result is the position
/// of such a piece.
pub proof fn lemma_links_are_cut_pieces(candidates: Seq<Seq<char>>, i: int) -> (k: int)
    requires
        0 <= i < accepted_links(candidates).len(),
    ensures
        0 <= k < candidates.len(),
        link_accepted(candidates[k]),
        accepted_links(candidates)[i] == trimmed(candidates[k]),
    decreases candidates.len(),
{
    let front = candidates.drop_last();
    if link_accepted(candidates.last()) && i == accepted_links(front).len() {
        candidates.len() - 1
    } else {
        let k = lemma_links_are_cut_pieces(front, i);
        assert(front[k] == candidates[k]);
        k
    }
}

/// A piece that is a part of a text is still a part of it without the `)`
/// and `.` at its end.
pub proof fn lemma_cut_piece_is_part(text: Seq<char>, piece: Seq<char>)
    requires
        is_substring(text, piece),
    ensures
        is_substring(text, trimmed(piece)),
{
    let at = choose|at: int| occurs_at(text, piece, at);
    let kept = trimmed(piece);
    lemma_trimmed(piece);
    assert(text.subrange(at, at + kept.len()) =~= kept) by {
        assert(kept =~= piece.subrange(0, kept.len() as int));
        assert(piece == text.subrange(at, at + piece.len()));
    }
    assert(occurs_at(text, kept, at));
}

/// Blocklist first: a text that holds an entry of the blocklist is no
/// support link, whatever host is read from it.
pub proof fn lemma_blocklist_first(url: Seq<char>, host: Option<Seq<char>>)
    requires
        blocklisted(url),
    ensures
        !host_accepted(url, host),
        !link_accepted(url),
{
}

/// A text that holds `opencollective.com/debug` is no support link, though
/// `opencollective.com` is the host of a funding platform.
pub proof fn lemma_debug_page_rejected(url: Seq<char>)
    requires
        is_substring(url, "opencollective.com/debug"@),
    ensures
        allowlisted("opencollective.com"@),
        !host_accepted(url, Some("opencollective.com"@)),
        !link_accepted(url),
{
    assert(blocklist()[0] == "opencollective.com/debug"@);
    assert(support_websites()[0] == "opencollective.com"@);
}

/// A piece of text that counts is stored without the `)` and `.` at its
/// end, and a piece that does not count is not stored at all.
pub proof fn lemma_lone_piece(piece: Seq<char>)
    ensures
        accepted_links(seq![piece]) == if link_accepted(piece) {
            seq![trimmed(piece)]
        } else {
            Seq::<Seq<char>>::empty()
        },
{
    assert(seq![piece].drop_last() =~= Seq::<Seq<char>>::empty());
    assert(accepted_links(seq![piece].drop_last()) =~= Seq::<Seq<char>>::empty());
    if link_accepted(piece) {
        assert(accepted_links(seq![piece]) =~= seq![trimmed(piece)]);
    }
}

/// Pieces that all hold an entry of the blocklist give no support link,
/// whatever their hosts are.
pub proof fn lemma_blocklisted_pieces(pieces: Seq<Seq<char>>)
    requires
        forall|i: int| 0 <= i < pieces.len() ==> blocklisted(#[trigger] pieces[i]),
    ensures
        accepted_links(pieces) == Seq::<Seq<char>>::empty(),
    decreases pieces.len(),
{
    if pieces.len() > 0 {
        assert forall|i: int| 0 <= i < pieces.drop_last().len() implies blocklisted(
            #[trigger] pieces.drop_last()[i],
        ) by {
            assert(pieces.drop_last()[i] == pieces[i]);
        }
        lemma_blocklisted_pieces(pieces.drop_last());
        assert(blocklisted(pieces[pieces.len() - 1]));
    }
}

} // verus!
