//! Monitoring API responses.
//!
//! Serving them over HTTP (and encoding them as JSON) is up to the caller.

use vstd::prelude::*;

verus! {

/// Response of the health endpoint.
#[derive(Debug)]
pub struct HealthResponse {
    pub status: &'static str,
    pub version: &'static str,
}

/// A topic in the topic listing.
#[derive(Debug)]
pub struct TopicInfo {
    pub key: String,
}

/// The health response of a running instance of the given version: status `ok`.
pub fn health(version: &'static str) -> (r: HealthResponse)
    ensures
        r.status@ == seq!['o', 'k'],
        r.version@ == version@,
{
    proof {
        reveal_strlit("ok");
    }
    HealthResponse { status: "ok", version }
}

/// The topic listing: one entry per active topic key, in order.
pub fn list_topics(keys: &Vec<String>) -> (r: Vec<TopicInfo>)
    ensures
        r@.map_values(|t: TopicInfo| t.key@) == keys@.map_values(|k: String| k@),
{
    let mut r: Vec<TopicInfo> = Vec::new();
    let mut i: usize = 0;
    while i < keys.len()
        invariant
            i <= keys@.len(),
            r@.map_values(|t: TopicInfo| t.key@) == keys@.map_values(|k: String| k@).take(i as int),
        decreases keys@.len() - i,
    {
        let ghost r0 = r@.map_values(|t: TopicInfo| t.key@);
        r.push(TopicInfo { key: keys[i].clone() });
        assert(r@.map_values(|t: TopicInfo| t.key@) =~= r0.push(keys@[i as int]@));
        assert(keys@.map_values(|k: String| k@).take(i + 1) =~= keys@.map_values(|k: String| k@).take(
            i as int,
        ).push(keys@[i as int]@));
        i += 1;
    }
    assert(keys@.map_values(|k: String| k@).take(keys@.len() as int) =~= keys@.map_values(
        |k: String| k@,
    ));
    r
}

} // verus!
