//! What is done with the replies of the services once they are in.
use vstd::prelude::*;
use crate::address::Address;
use crate::consensus::{is_winner, v4_keys, v6_keys, Consensus};
use crate::decoder::{decodes_to, Decoder, SourceError};
use crate::registry::HttpSource;

verus! {

/// `res` holds, for each source, what its reply decoded to; a missing reply (a
/// timeout or a failed request) is a `RequestError`.
pub open spec fn replies_decode_to(
    sources: Seq<HttpSource>,
    replies: Seq<Option<Vec<u8>>>,
    res: Seq<Result<Address, SourceError>>,
) -> bool {
    &&& res.len() == sources.len() == replies.len()
    &&& forall|i: int|
        0 <= i < res.len() ==> match #[trigger] replies[i] {
            None => res[i] matches Err(SourceError::RequestError),
            Some(b) => decodes_to(sources[i].decoder, b@, res[i]),
        }
}

/// The addresses of the successful results, in order.
pub open spec fn oks(res: Seq<Result<Address, SourceError>>) -> Seq<Address>
    decreases res.len(),
{
    if res.len() == 0 {
        Seq::empty()
    } else {
        match res.last() {
            Ok(a) => oks(res.drop_last()).push(a),
            Err(_) => oks(res.drop_last()),
        }
    }
}

/// `c` is the outcome of the vote over the candidates `ips`.
pub open spec fn elects(c: Consensus, ips: Seq<Address>) -> bool {
    &&& c.spec_v4() is None <==> v4_keys(ips).len() == 0
    &&& c.spec_v4() matches Some(w) ==> is_winner(v4_keys(ips), w as u128)
    &&& c.spec_v6() is None <==> v6_keys(ips).len() == 0
    &&& c.spec_v6() matches Some(w) ==> is_winner(v6_keys(ips), w)
}

/// Decodes each reply with the decoder of its source.
pub fn decode_replies(sources: &Vec<HttpSource>, replies: &Vec<Option<Vec<u8>>>) -> (r: Vec<
    Result<Address, SourceError>,
>)
    requires
        sources@.len() == replies@.len(),
    ensures
        replies_decode_to(sources@, replies@, r@),
{
    let mut r: Vec<Result<Address, SourceError>> = Vec::new();
    let mut i: usize = 0;
    while i < replies.len()
        invariant
            sources@.len() == replies@.len(),
            i <= replies@.len(),
            r@.len() == i,
            forall|j: int|
                0 <= j < i ==> match #[trigger] replies@[j] {
                    None => r@[j] matches Err(SourceError::RequestError),
                    Some(b) => decodes_to(sources@[j].decoder, b@, r@[j]),
                },
        decreases replies@.len() - i,
    {
        let d: &Decoder = &sources[i].decoder;
        let x = match &replies[i] {
            None => Err(SourceError::RequestError),
            Some(b) => d.decode(b.as_slice()),
        };
        r.push(x);
        i = i + 1;
    }
    r
}

/// The addresses of the successful results, in order.
pub fn successes(res: &Vec<Result<Address, SourceError>>) -> (r: Vec<Address>)
    ensures
        r@ == oks(res@),
{
    let mut r: Vec<Address> = Vec::new();
    let mut i: usize = 0;
    assert(res@.take(0) =~= Seq::<Result<Address, SourceError>>::empty());
    while i < res.len()
        invariant
            i <= res@.len(),
            r@ == oks(res@.take(i as int)),
        decreases res@.len() - i,
    {
        assert(res@.take(i + 1).drop_last() =~= res@.take(i as int));
        match &res[i] {
            Ok(a) => r.push(*a),
            Err(_) => {},
        }
        i = i + 1;
    }
    assert(res@.take(i as int) =~= res@);
    r
}

impl Consensus {
    /// Decodes the replies of the sources (one reply per source, `None` where the
    /// request failed) and votes over the addresses that came out.
    pub fn from_replies(sources: &Vec<HttpSource>, replies: &Vec<Option<Vec<u8>>>) -> (r: Consensus)
        requires
            sources@.len() == replies@.len(),
        ensures
            exists|res: Seq<Result<Address, SourceError>>|
                replies_decode_to(sources@, replies@, res) && elects(r, oks(res)),
    {
        let res = decode_replies(sources, replies);
        let ips = successes(&res);
        let r = Consensus::from_ips(&ips);
        assert(replies_decode_to(sources@, replies@, res@) && elects(r, oks(res@)));
        r
    }
}

/// A failed source changes nothing: the candidates with its result are those without it.
pub proof fn lemma_failure_ignored(res: Seq<Result<Address, SourceError>>, i: int)
    requires
        0 <= i < res.len(),
        res[i] is Err,
    ensures
        oks(res.remove(i)) == oks(res),
    decreases res.len(),
{
    if i == res.len() - 1 {
        assert(res.remove(i) =~= res.drop_last());
    } else {
        lemma_failure_ignored(res.drop_last(), i);
        assert(res.remove(i).drop_last() =~= res.drop_last().remove(i));
        assert(res.remove(i).last() == res.last());
    }
}

} // verus!
