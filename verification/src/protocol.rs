//! The wire protocol: which inbound payloads are join attempts, and the
//! exact text of the server-generated notices.
//!
//! A payload is a join attempt when it begins with the marker
//! `"[JOIN_ATTEMPT] "`; the requested username is everything after the
//! marker. Every other payload is plain chat. The classification happens
//! once, at the boundary; downstream code works on the decoded [`Frame`].

use vstd::prelude::*;

verus! {

/// The bytes of an ASCII character sequence, one byte per character.
pub open spec fn ascii_bytes(s: Seq<char>) -> Seq<u8> {
    Seq::new(s.len(), |i: int| s[i] as u8)
}

/// The marker that opens a join attempt, including its trailing space.
pub open spec fn join_marker() -> Seq<u8> {
    ascii_bytes("[JOIN_ATTEMPT] "@)
}

/// Whether `payload` is a join attempt: it begins with the join marker.
pub open spec fn is_join_frame(payload: Seq<u8>) -> bool {
    payload.len() >= join_marker().len()
        && payload.subrange(0, join_marker().len() as int) == join_marker()
}

/// The username requested by a join attempt: everything after the marker.
pub open spec fn join_username(payload: Seq<u8>) -> Seq<u8> {
    payload.subrange(join_marker().len() as int, payload.len() as int)
}

/// The notice broadcast after `name` joins:
/// `"[SERVER]: User <name> has joined."`.
pub open spec fn join_notice(name: Seq<u8>) -> Seq<u8> {
    ascii_bytes("[SERVER]: User "@) + name + ascii_bytes(" has joined."@)
}

/// The notice sent to a connection whose join attempt was rejected.
pub open spec fn rejection_notice() -> Seq<u8> {
    ascii_bytes("[SERVER_RESPONSE] That username is already taken."@)
}

/// The line a client sends for one chunk of local input: the username,
/// a separating `": "`, then the input itself.
pub open spec fn client_line(username: Seq<u8>, input: Seq<u8>) -> Seq<u8> {
    username + ascii_bytes(": "@) + input
}

/// One inbound payload, decoded once at the boundary.
pub enum Frame {
    Join { username: Vec<u8> },
    Chat { text: Vec<u8> },
}

/// The bytes of an ASCII string literal, as a vector.
fn literal_bytes(s: &str) -> (v: Vec<u8>)
    requires
        vstd::string::is_ascii(s),
    ensures
        v@ == ascii_bytes(s@),
{
    proof {
        vstd::string::is_ascii_spec_bytes(s);
    }
    let b = s.as_bytes();
    let v = vstd::slice::slice_to_vec(b);
    proof {
        assert(v@ =~= ascii_bytes(s@));
    }
    v
}

/// A fresh copy of `src`.
pub fn copy_bytes(src: &Vec<u8>) -> (v: Vec<u8>)
    ensures
        v@ == src@,
{
    let mut v: Vec<u8> = Vec::new();
    let mut i: usize = 0;
    while i < src.len()
        invariant
            i <= src.len(),
            v@ == src@.subrange(0, i as int),
        decreases src.len() - i,
    {
        v.push(src[i]);
        i = i + 1;
        proof {
            assert(v@ =~= src@.subrange(0, i as int));
        }
    }
    proof {
        assert(v@ =~= src@);
    }
    v
}

/// Whether `a` and `b` hold the same bytes.
pub fn bytes_eq(a: &Vec<u8>, b: &Vec<u8>) -> (r: bool)
    ensures
        r == (a@ == b@),
{
    if a.len() != b.len() {
        proof {
            assert(a@ != b@);
        }
        return false;
    }
    let mut i: usize = 0;
    while i < a.len()
        invariant
            i <= a.len(),
            a@.len() == b@.len(),
            forall|j: int| 0 <= j < i ==> a@[j] == b@[j],
        decreases a.len() - i,
    {
        if a[i] != b[i] {
            return false;
        }
        i = i + 1;
    }
    proof {
        assert(a@ =~= b@);
    }
    true
}

/// Decodes one inbound payload: a join attempt when it begins with the
/// join marker, plain chat otherwise.
pub fn parse_frame(payload: &Vec<u8>) -> (f: Frame)
    ensures
        is_join_frame(payload@) ==> (f matches Frame::Join { username }
            && username@ == join_username(payload@)),
        !is_join_frame(payload@) ==> (f matches Frame::Chat { text } && text@ == payload@),
{
    let marker = join_marker_bytes();
    if payload.len() >= marker.len() {
        let mut i: usize = 0;
        let mut matched = true;
        proof {
            assert(payload@.subrange(0, 0) =~= join_marker().subrange(0, 0));
        }
        while i < marker.len()
            invariant
                i <= marker.len(),
                marker@ == join_marker(),
                payload@.len() >= marker@.len(),
                matched ==> payload@.subrange(0, i as int) == join_marker().subrange(
                    0,
                    i as int,
                ),
                !matched ==> exists|j: int| 0 <= j < i && payload@[j] != join_marker()[j],
            decreases marker.len() - i,
        {
            if payload[i] != marker[i] {
                matched = false;
            }
            i = i + 1;
            proof {
                if matched {
                    assert(payload@.subrange(0, i as int) =~= join_marker().subrange(
                        0,
                        i as int,
                    ));
                }
            }
        }
        proof {
            if matched {
                assert(payload@.subrange(0, join_marker().len() as int) =~= join_marker());
            } else {
                if is_join_frame(payload@) {
                    let j = choose|j: int|
                        0 <= j < marker@.len() && payload@[j] != join_marker()[j];
                    assert(payload@.subrange(0, join_marker().len() as int)[j]
                        == payload@[j]);
                    assert(false);
                }
            }
        }
        if matched {
            let mut username: Vec<u8> = Vec::new();
            let mut k: usize = marker.len();
            while k < payload.len()
                invariant
                    marker@.len() <= k <= payload.len(),
                    marker@ == join_marker(),
                    username@ == payload@.subrange(marker@.len() as int, k as int),
                decreases payload.len() - k,
            {
                username.push(payload[k]);
                k = k + 1;
                proof {
                    assert(username@ =~= payload@.subrange(marker@.len() as int, k as int));
                }
            }
            return Frame::Join { username };
        }
    }
    proof {
        if payload@.len() >= join_marker().len() {
            assert(payload@.subrange(0, join_marker().len() as int) != join_marker());
        }
    }
    Frame::Chat { text: copy_bytes(payload) }
}

/// The join marker, as bytes.
pub fn join_marker_bytes() -> (v: Vec<u8>)
    ensures
        v@ == join_marker(),
{
    let s = "[JOIN_ATTEMPT] ";
    proof {
        reveal_strlit("[JOIN_ATTEMPT] ");
        assert(vstd::string::is_ascii(s));
    }
    literal_bytes(s)
}

/// The join notice for `name`, as bytes.
pub fn join_notice_bytes(name: &Vec<u8>) -> (v: Vec<u8>)
    ensures
        v@ == join_notice(name@),
{
    let s1 = "[SERVER]: User ";
    let s2 = " has joined.";
    proof {
        reveal_strlit("[SERVER]: User ");
        reveal_strlit(" has joined.");
        assert(vstd::string::is_ascii(s1));
        assert(vstd::string::is_ascii(s2));
    }
    let mut v = literal_bytes(s1);
    let mid = copy_bytes(name);
    let tail = literal_bytes(s2);
    let mut i: usize = 0;
    while i < mid.len()
        invariant
            i <= mid.len(),
            mid@ == name@,
            v@ == ascii_bytes("[SERVER]: User "@) + name@.subrange(0, i as int),
        decreases mid.len() - i,
    {
        v.push(mid[i]);
        i = i + 1;
        proof {
            assert(v@ =~= ascii_bytes("[SERVER]: User "@) + name@.subrange(0, i as int));
        }
    }
    let mut k: usize = 0;
    while k < tail.len()
        invariant
            k <= tail.len(),
            tail@ == ascii_bytes(" has joined."@),
            v@ == ascii_bytes("[SERVER]: User "@) + name@ + ascii_bytes(
                " has joined."@,
            ).subrange(0, k as int),
        decreases tail.len() - k,
    {
        v.push(tail[k]);
        k = k + 1;
        proof {
            assert(v@ =~= ascii_bytes("[SERVER]: User "@) + name@ + ascii_bytes(
                " has joined."@,
            ).subrange(0, k as int));
        }
    }
    proof {
        assert(name@.subrange(0, name@.len() as int) =~= name@);
        assert(ascii_bytes(" has joined."@).subrange(
            0,
            ascii_bytes(" has joined."@).len() as int,
        ) =~= ascii_bytes(" has joined."@));
        assert(v@ =~= join_notice(name@));
    }
    v
}

/// Builds a client's outbound line from its username and one chunk of
/// local input.
pub fn client_line_bytes(username: &Vec<u8>, input: &Vec<u8>) -> (v: Vec<u8>)
    ensures
        v@ == client_line(username@, input@),
{
    let s = ": ";
    proof {
        reveal_strlit(": ");
        assert(vstd::string::is_ascii(s));
    }
    let mut v = copy_bytes(username);
    let sep = literal_bytes(s);
    let mut i: usize = 0;
    proof {
        assert(v@ =~= username@ + ascii_bytes(": "@).subrange(0, 0));
    }
    while i < sep.len()
        invariant
            i <= sep.len(),
            sep@ == ascii_bytes(": "@),
            v@ == username@ + ascii_bytes(": "@).subrange(0, i as int),
        decreases sep.len() - i,
    {
        v.push(sep[i]);
        i = i + 1;
        proof {
            assert(v@ =~= username@ + ascii_bytes(": "@).subrange(0, i as int));
        }
    }
    let mut k: usize = 0;
    proof {
        assert(ascii_bytes(": "@).subrange(0, ascii_bytes(": "@).len() as int) =~= ascii_bytes(
            ": "@,
        ));
        assert(v@ =~= username@ + ascii_bytes(": "@) + input@.subrange(0, 0));
    }
    while k < input.len()
        invariant
            k <= input.len(),
            v@ == username@ + ascii_bytes(": "@) + input@.subrange(0, k as int),
        decreases input.len() - k,
    {
        v.push(input[k]);
        k = k + 1;
        proof {
            assert(v@ =~= username@ + ascii_bytes(": "@) + input@.subrange(0, k as int));
        }
    }
    proof {
        assert(ascii_bytes(": "@).subrange(0, ascii_bytes(": "@).len() as int) =~= ascii_bytes(
            ": "@,
        ));
        assert(input@.subrange(0, input@.len() as int) =~= input@);
        assert(v@ =~= client_line(username@, input@));
    }
    v
}

/// The rejection notice, as bytes.
pub fn rejection_notice_bytes() -> (v: Vec<u8>)
    ensures
        v@ == rejection_notice(),
{
    let s = "[SERVER_RESPONSE] That username is already taken.";
    proof {
        reveal_strlit("[SERVER_RESPONSE] That username is already taken.");
        assert(vstd::string::is_ascii(s));
    }
    literal_bytes(s)
}

} // verus!
