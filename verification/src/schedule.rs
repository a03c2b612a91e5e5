use vstd::prelude::*;

verus! {

/// How many downloads may run at once: one for a single song, else the thread count asked for.
pub fn thread_limit(song_count: usize, thread_count: usize) -> (r: usize)
    ensures
        r == (if song_count == 1 {
            1
        } else {
            thread_count
        }),
{
    if song_count == 1 {
        1
    } else {
        thread_count
    }
}

/// Whether one more download may start while `running` run under the limit `limit`;
/// starting only then never puts more than `limit` downloads at work.
pub fn may_start(running: usize, limit: usize) -> (r: bool)
    ensures
        r == (running < limit),
        r ==> running + 1 <= limit,
{
    running < limit
}

} // verus!
