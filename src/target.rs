use vstd::prelude::*;
use crate::markup::same_text;

verus! {

/// What a catalog URL points at.
#[derive(Debug, PartialEq, Eq)]
pub enum Target {
    Album(String),
    Song(String),
}

/// Index of the first query pair whose key is `i`.
pub open spec fn song_key_at(pairs: Seq<(String, String)>) -> Option<int> {
    if exists|k: int| 0 <= k < pairs.len() && pairs[k].0@ == seq!['i'] {
        Some(choose|k: int| 0 <= k < pairs.len() && pairs[k].0@ == seq!['i'] && forall|j: int|
            0 <= j < k ==> pairs[j].0@ != seq!['i'])
    } else {
        None
    }
}

/// Picks what a URL with query pairs `pairs` and last path segment `last_segment` points at:
/// the song named by the first `i` query parameter, else the album named by the last path
/// segment; `None` when that segment is needed and absent.
pub fn target_of(pairs: &Vec<(String, String)>, last_segment: Option<String>) -> (r: Option<Target>)
    ensures
        song_key_at(pairs@) is Some ==> (r matches Some(Target::Song(id)) && id@ == pairs@[song_key_at(pairs@)->Some_0].1@),
        song_key_at(pairs@) is None ==> (r is Some <==> last_segment is Some),
        song_key_at(pairs@) is None && last_segment is Some ==> (r matches Some(Target::Album(id))
            && id@ == last_segment->Some_0@),
{
    proof {
        reveal_strlit("i");
        assert("i"@ =~= seq!['i']);
    }
    let mut k: usize = 0;
    while k < pairs.len()
        invariant
            k <= pairs@.len(),
            "i"@ == seq!['i'],
            forall|j: int| 0 <= j < k ==> pairs@[j].0@ != seq!['i'],
        decreases pairs@.len() - k,
    {
        if same_text(pairs[k].0.as_str(), "i") {
            proof {
                let w = k as int;
                assert(pairs@[w].0@ == seq!['i']);
                let c = choose|c: int| 0 <= c < pairs@.len() && pairs@[c].0@ == seq!['i'] && forall|j: int|
                    0 <= j < c ==> pairs@[j].0@ != seq!['i'];
                assert(c == w) by {
                    if c < w {
                        assert(pairs@[c].0@ != seq!['i']);
                    } else if c > w {
                        assert(pairs@[w].0@ != seq!['i']);
                    }
                }
            }
            return Some(Target::Song(pairs[k].1.clone()));
        }
        k = k + 1;
    }
    match last_segment {
        Some(id) => Some(Target::Album(id)),
        None => None,
    }
}

} // verus!
