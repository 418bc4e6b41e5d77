//! The roster of services: endpoints with the decoder that reads their replies.
use vstd::prelude::*;
use crate::decoder::Decoder;

verus! {

#[verifier::external_type_specification]
#[verifier::external_body]
pub struct ExUrl(url::Url);

/// Whether the text is an absolute URL.
pub uninterp spec fn url_valid(s: Seq<char>) -> bool;

/// Relies on `url::Url::parse` (what `reqwest::Url` names): it succeeds exactly on
/// absolute URLs, and whether a text is one depends on the text alone.
#[verifier::external_body]
fn parse_url(s: &str) -> (r: Option<url::Url>)
    ensures
        r is Some <==> url_valid(s@),
{
    url::Url::parse(s).ok()
}

/// One service: the URL as written, the parsed URL, and how to read its replies.
#[derive(Debug)]
pub struct HttpSource {
    pub text: String,
    pub endpoint: url::Url,
    pub decoder: Decoder,
}

/// The entries whose URL parses, in their order.
pub open spec fn kept(es: Seq<(String, Decoder)>) -> Seq<(String, Decoder)>
    decreases es.len(),
{
    if es.len() == 0 {
        Seq::empty()
    } else {
        let rest = kept(es.drop_first());
        if url_valid(es[0].0@) {
            seq![es[0]] + rest
        } else {
            rest
        }
    }
}

/// The text and decoder of each source.
pub open spec fn entries_of(r: Seq<HttpSource>) -> Seq<(String, Decoder)> {
    r.map_values(|h: HttpSource| (h.text, h.decoder))
}

/// Builds the roster from (URL, decoder) entries, leaving out each entry whose
/// URL does not parse.
pub fn build_sources(entries: Vec<(String, Decoder)>) -> (r: Vec<HttpSource>)
    ensures
        entries_of(r@) == kept(entries@),
{
    let ghost orig = entries@;
    let mut entries = entries;
    let mut out: Vec<HttpSource> = Vec::new();
    assert(entries_of(out@) + kept(entries@) =~= kept(orig));
    while entries.len() > 0
        invariant
            entries_of(out@) + kept(entries@) == kept(orig),
        decreases entries@.len(),
    {
        let ghost before = entries@;
        let ghost out_before = out@;
        let (text, decoder) = entries.remove(0);
        assert(entries@ =~= before.drop_first());
        match parse_url(text.as_str()) {
            Some(endpoint) => {
                out.push(HttpSource { text, endpoint, decoder });
                assert(entries_of(out@) =~= entries_of(out_before) + seq![before[0]]);
                assert(entries_of(out@) + kept(entries@) =~= entries_of(out_before) + (seq![
                    before[0],
                ] + kept(entries@)));
            },
            None => {},
        }
    }
    assert(entries_of(out@) + kept(entries@) =~= entries_of(out@));
    out
}

/// The services asked by default, each replying with the bare address.
pub fn default_entries() -> (r: Vec<(String, Decoder)>)
    ensures
        r@.len() == 14,
        forall|i: int| 0 <= i < r@.len() ==> #[trigger] r@[i].1 is Plain,
{
    let mut r: Vec<(String, Decoder)> = Vec::new();
    r.push(("https://icanhazip.com/".to_owned(), Decoder::Plain));
    r.push(("https://myexternalip.com/raw".to_owned(), Decoder::Plain));
    r.push(("https://ifconfig.io/ip".to_owned(), Decoder::Plain));
    r.push(("https://ipecho.net/plain".to_owned(), Decoder::Plain));
    r.push(("https://checkip.amazonaws.com/".to_owned(), Decoder::Plain));
    r.push(("http://whatismyip.akamai.com/".to_owned(), Decoder::Plain));
    r.push(("https://myip.dnsomatic.com/".to_owned(), Decoder::Plain));
    r.push(("https://diagnostic.opendns.com/myip".to_owned(), Decoder::Plain));
    r.push(("https://v4.ident.me/".to_owned(), Decoder::Plain));
    r.push(("https://v6.ident.me/".to_owned(), Decoder::Plain));
    r.push(("https://api4.ipify.org/".to_owned(), Decoder::Plain));
    r.push(("https://api6.ipify.org/".to_owned(), Decoder::Plain));
    r.push(("https://ipv4.wtfismyip.com/text".to_owned(), Decoder::Plain));
    r.push(("https://ipv6.wtfismyip.com/text".to_owned(), Decoder::Plain));
    r
}

proof fn lemma_all_kept(es: Seq<(String, Decoder)>)
    requires
        forall|j: int| 0 <= j < es.len() ==> url_valid(#[trigger] es[j].0@),
    ensures
        kept(es).len() == es.len(),
    decreases es.len(),
{
    if es.len() > 0 {
        assert(url_valid(es[0].0@));
        assert forall|j: int| 0 <= j < es.drop_first().len() implies url_valid(
            #[trigger] es.drop_first()[j].0@,
        ) by {
            assert(es.drop_first()[j] == es[j + 1]);
        }
        lemma_all_kept(es.drop_first());
    }
}

/// One entry with a URL that does not parse, among entries that all parse, costs
/// the roster that one entry and nothing more.
pub proof fn lemma_one_bad_url(es: Seq<(String, Decoder)>, i: int)
    requires
        0 <= i < es.len(),
        !url_valid(es[i].0@),
        forall|j: int| 0 <= j < es.len() && j != i ==> url_valid(#[trigger] es[j].0@),
    ensures
        kept(es).len() == es.len() - 1,
    decreases es.len(),
{
    let rest = es.drop_first();
    if i == 0 {
        assert forall|j: int| 0 <= j < rest.len() implies url_valid(#[trigger] rest[j].0@) by {
            assert(rest[j] == es[j + 1]);
        }
        lemma_all_kept(rest);
    } else {
        assert(url_valid(es[0].0@));
        assert(rest[i - 1] == es[i]);
        assert forall|j: int| 0 <= j < rest.len() && j != i - 1 implies url_valid(
            #[trigger] rest[j].0@,
        ) by {
            assert(rest[j] == es[j + 1]);
        }
        lemma_one_bad_url(rest, i - 1);
    }
}

} // verus!
