//! The decisions of a lookup in a service that lives on another node: the
//! request to send, which received message answers it, and when to give up.
//! Sending, receiving and decoding the answer's value are left to the
//! caller, which holds the network connection.
use vstd::prelude::*;
use crate::evaluator::EvalError;
use crate::manager::{Manager, pairs_view};
use crate::scope::{find_last, keys_of, last_index};
use crate::semantics::ErrV;

verus! {

broadcast use {vstd::std_specs::vec::group_vec_axioms, vstd::string::to_string_from_display_ensures_for_str};

/// Messages of the lookup protocol between nodes.
#[derive(Debug, PartialEq)]
pub enum RemoteMessage {
    /// Asks for `member` of `service`; the answer goes to `reply_to`.
    LookupRequest { request_id: u64, service: String, member: String, reply_to: String },
    /// The value asked for, in its serialized form.
    LookupResponse { request_id: u64, value: String },
    /// The lookup failed on the other node.
    LookupError { request_id: u64, error: String },
}

/// `s` with every trailing occurrence of `p` removed, from the end.
pub open spec fn trim_suffix(s: Seq<char>, p: Seq<char>) -> Seq<char>
    decreases s.len(),
{
    if p.len() > 0 && p.len() <= s.len() && s.subrange(s.len() - p.len(), s.len() as int) == p {
        trim_suffix(s.subrange(0, s.len() - p.len()), p)
    } else {
        s
    }
}

/// `p` written `k` times in a row.
pub open spec fn repeated(p: Seq<char>, k: nat) -> Seq<char>
    decreases k,
{
    if k == 0 {
        Seq::empty()
    } else {
        repeated(p, (k - 1) as nat) + p
    }
}

/// Whether `s` ends with `p`.
pub open spec fn ends_with(s: Seq<char>, p: Seq<char>) -> bool {
    p.len() <= s.len() && s.subrange(s.len() - p.len(), s.len() as int) == p
}

/// Trimming a non-empty pattern removes whole copies of it from the end,
/// and all of them: `s` is what is left followed by some number of copies
/// of `p`, and what is left does not end with `p`.
pub proof fn law_trim_removes_all_trailing_copies(s: Seq<char>, p: Seq<char>)
    requires
        p.len() > 0,
    ensures
        !ends_with(trim_suffix(s, p), p),
        exists|k: nat| s == trim_suffix(s, p) + #[trigger] repeated(p, k),
    decreases s.len(),
{
    if p.len() <= s.len() && s.subrange(s.len() - p.len(), s.len() as int) == p {
        let s1 = s.subrange(0, s.len() - p.len());
        law_trim_removes_all_trailing_copies(s1, p);
        let r = trim_suffix(s1, p);
        let k = choose|k: nat| s1 == r + #[trigger] repeated(p, k);
        assert(repeated(p, k + 1) == repeated(p, k) + p);
        assert(s =~= s1 + p);
        assert(s =~= r + repeated(p, k + 1));
    } else {
        assert(s =~= s + repeated(p, 0));
    }
}

/// `s` with every trailing occurrence of `p` removed, as `str::trim_end_matches` does.
pub fn trim_end_matches(s: &str, p: &str) -> (r: String)
    requires
        p@.len() > 0,
    ensures
        r@ == trim_suffix(s@, p@),
{
    let n = s.unicode_len();
    let k = p.unicode_len();
    let mut end: usize = n;
    assert(s@.subrange(0, n as int) =~= s@);
    loop
        invariant
            end <= n,
            n == s@.len(),
            k == p@.len(),
            k > 0,
            trim_suffix(s@, p@) == trim_suffix(s@.subrange(0, end as int), p@),
        decreases end,
    {
        let ghost cur = s@.subrange(0, end as int);
        if k > end {
            return s.substring_char(0, end).to_string();
        }
        let mut i: usize = 0;
        let mut same = true;
        while i < k
            invariant
                i <= k,
                k <= end <= n,
                n == s@.len(),
                k == p@.len(),
                same == forall|j: int| 0 <= j < i ==> #[trigger] s@[end - k + j] == p@[j],
            decreases k - i,
        {
            if s.get_char(end - k + i) != p.get_char(i) {
                same = false;
            }
            i = i + 1;
        }
        assert(same == (cur.subrange(cur.len() - p@.len(), cur.len() as int) == p@)) by {
            if same {
                assert forall|j: int| 0 <= j < k implies cur.subrange(cur.len() - p@.len(), cur.len() as int)[j] == p@[j] by {
                    assert(s@[end - k + j] == p@[j]);
                }
                assert(cur.subrange(cur.len() - p@.len(), cur.len() as int) =~= p@);
            } else {
                let j = choose|j: int| 0 <= j < k && s@[end - k + j] != p@[j];
                assert(cur.subrange(cur.len() - p@.len(), cur.len() as int)[j] != p@[j]);
            }
        }
        if !same {
            return s.substring_char(0, end).to_string();
        }
        assert(cur.subrange(0, cur.len() - p@.len()) =~= s@.subrange(0, end - k));
        end = end - k;
    }
}

/// The error for a service that is not known to live elsewhere.
pub open spec fn remote_not_found(service: Seq<char>) -> ErrV {
    ErrV::LookupError("Remote service '"@ + service + "' not found"@)
}

/// The address a request for `service` goes to: its registered address
/// without the trailing service name.
pub open spec fn node_address(url: Seq<char>, service: Seq<char>) -> Seq<char> {
    trim_suffix(url, "/"@ + service)
}

/// Where the answer is to be sent: the first local address with the peer
/// id appended, or nothing without an address.
pub open spec fn reply_address(local_addrs: Seq<Seq<char>>, peer_id: Seq<char>) -> Seq<char> {
    if local_addrs.len() > 0 {
        local_addrs[0] + "/p2p/"@ + peer_id
    } else {
        Seq::empty()
    }
}

/// The error of a lookup that received no answer in time.
pub open spec fn timeout_error(service: Seq<char>, member: Seq<char>) -> ErrV {
    ErrV::NetworkError("Timeout waiting for remote lookup of "@ + service + "."@ + member)
}

/// How long a lookup waits for its answer, in seconds.
pub const REMOTE_LOOKUP_TIMEOUT_SECS: u64 = 15u64;

impl Manager {
    /// The request for `member` of the remote `service`, and the address
    /// to send it to; an error where the service is not known to live
    /// elsewhere.
    pub fn remote_lookup_request(
        &self,
        service: &str,
        member: &str,
        request_id: u64,
        local_addrs: &Vec<String>,
        peer_id: &str,
    ) -> (r: Result<(String, RemoteMessage), EvalError>)
        ensures
            ({
                let i = last_index(keys_of(pairs_view(self.remote_services@)), service@);
                if i >= 0 {
                    r matches Ok((addr, RemoteMessage::LookupRequest { request_id: id, service: s, member: mb, reply_to })) && addr@ == node_address(
                        pairs_view(self.remote_services@)[i].1,
                        service@,
                    ) && id == request_id && s@ == service@ && mb@ == member@ && reply_to@ == reply_address(
                        Seq::new(local_addrs@.len(), |j: int| local_addrs@[j]@),
                        peer_id@,
                    )
                } else {
                    r matches Err(e) && e@ == remote_not_found(service@)
                }
            }),
    {
        let svc = service.to_string();
        assert(keys_of(pairs_view(self.remote_services@)) =~= crate::scope::exec_keys(self.remote_services@));
        match find_last(self.remote_services.as_slice(), &svc) {
            None => {
                let mut msg = "Remote service '".to_string();
                msg.append(service);
                msg.append("' not found");
                Err(EvalError::LookupError(msg))
            },
            Some(i) => {
                let mut pat = "/".to_string();
                pat.append(service);
                proof {
                    reveal_strlit("/");
                }
                let addr = trim_end_matches(self.remote_services[i].1.as_str(), pat.as_str());
                let reply_to = if local_addrs.len() > 0 {
                    let mut r = local_addrs[0].clone();
                    r.append("/p2p/");
                    r.append(peer_id);
                    r
                } else {
                    String::new()
                };
                let msg = RemoteMessage::LookupRequest {
                    request_id,
                    service: svc,
                    member: member.to_string(),
                    reply_to,
                };
                Ok((addr, msg))
            },
        }
    }
}

/// Whether `msg` answers request `request_id`: the serialized value of a
/// response, or the error reported; `None` for any other message.
pub fn remote_lookup_reply(request_id: u64, msg: &RemoteMessage) -> (r: Option<Result<String, EvalError>>)
    ensures
        match msg {
            RemoteMessage::LookupResponse { request_id: id, value } => if *id == request_id {
                r matches Some(Ok(v)) && v@ == value@
            } else {
                r is None
            },
            RemoteMessage::LookupError { request_id: id, error } => if *id == request_id {
                r matches Some(Err(e)) && e@ == ErrV::LookupError(error@)
            } else {
                r is None
            },
            RemoteMessage::LookupRequest { .. } => r is None,
        },
{
    match msg {
        RemoteMessage::LookupResponse { request_id: id, value } => {
            if *id == request_id {
                Some(Ok(value.clone()))
            } else {
                None
            }
        },
        RemoteMessage::LookupError { request_id: id, error } => {
            if *id == request_id {
                Some(Err(EvalError::LookupError(error.clone())))
            } else {
                None
            }
        },
        RemoteMessage::LookupRequest { .. } => None,
    }
}

/// The error to give up with, once more than the timeout has passed
/// without an answer.
pub fn remote_lookup_timeout(service: &str, member: &str, elapsed_secs: u64) -> (r: Option<EvalError>)
    ensures
        elapsed_secs > REMOTE_LOOKUP_TIMEOUT_SECS ==> (r matches Some(e) && e@ == timeout_error(service@, member@)),
        elapsed_secs <= REMOTE_LOOKUP_TIMEOUT_SECS ==> r is None,
{
    if elapsed_secs > REMOTE_LOOKUP_TIMEOUT_SECS {
        let mut msg = "Timeout waiting for remote lookup of ".to_string();
        msg.append(service);
        msg.append(".");
        msg.append(member);
        Some(EvalError::NetworkError(msg))
    } else {
        None
    }
}

} // verus!
