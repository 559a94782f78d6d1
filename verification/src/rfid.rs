//! The badge reader front end: line intake and the per-tag debouncer.
//!
//! A hardware badge reader types each tag followed by a newline. A reader
//! thread outside this crate feeds raw lines into [`RfidReader::offer`];
//! [`RfidReader::poll`] then hands out at most one accepted tag per call,
//! suppressing an identical tag that arrives again within the configured
//! debounce window. Different tags are never debounced against each other,
//! and the debouncer state advances only on accepted scans.

use vstd::prelude::*;

use crate::strutil::str_eq;

verus! {

/// Whitespace as a badge reader produces it around a tag.
pub open spec fn spec_is_ws(c: char) -> bool {
    c == ' ' || c == '\t' || c == '\r' || c == '\n'
}

/// `s` without leading whitespace.
pub open spec fn spec_trim_start(s: Seq<char>) -> Seq<char>
    decreases s.len(),
{
    if s.len() == 0 {
        s
    } else if spec_is_ws(s[0]) {
        spec_trim_start(s.drop_first())
    } else {
        s
    }
}

/// `s` without trailing whitespace.
pub open spec fn spec_trim_end(s: Seq<char>) -> Seq<char>
    decreases s.len(),
{
    if s.len() == 0 {
        s
    } else if spec_is_ws(s.last()) {
        spec_trim_end(s.drop_last())
    } else {
        s
    }
}

/// `s` without surrounding whitespace.
pub open spec fn spec_trim(s: Seq<char>) -> Seq<char> {
    spec_trim_end(spec_trim_start(s))
}

fn is_ws(c: char) -> (b: bool)
    ensures
        b == spec_is_ws(c),
{
    c == ' ' || c == '\t' || c == '\r' || c == '\n'
}

proof fn lemma_trim_start_step(s: Seq<char>, i: int)
    requires
        0 <= i < s.len(),
        spec_is_ws(s[i]),
    ensures
        spec_trim_start(s.skip(i)) == spec_trim_start(s.skip(i + 1)),
{
    assert(s.skip(i).len() > 0);
    assert(s.skip(i)[0] == s[i]);
    assert(s.skip(i).drop_first() =~= s.skip(i + 1));
}

proof fn lemma_trim_end_step(s: Seq<char>, j: int)
    requires
        0 < j <= s.len(),
        spec_is_ws(s[j - 1]),
    ensures
        spec_trim_end(s.take(j)) == spec_trim_end(s.take(j - 1)),
{
    assert(s.take(j).len() > 0);
    assert(s.take(j).last() == s[j - 1]);
    assert(s.take(j).drop_last() =~= s.take(j - 1));
}

/// Removes surrounding whitespace, as the reader thread does to raw lines.
pub fn trim_ws(s: &str) -> (r: String)
    ensures
        r@ == spec_trim(s@),
{
    let n = s.unicode_len();
    let mut start: usize = 0;
    proof {
        assert(s@.skip(0) =~= s@);
    }
    while start < n && is_ws(s.get_char(start))
        invariant
            0 <= start <= n,
            n == s@.len(),
            spec_trim_start(s@) == spec_trim_start(s@.skip(start as int)),
        decreases n - start,
    {
        proof {
            lemma_trim_start_step(s@, start as int);
        }
        start += 1;
    }
    let ghost t0 = s@.skip(start as int);
    proof {
        if start < n {
            assert(spec_trim_start(t0) == t0);
        } else {
            assert(t0 =~= Seq::<char>::empty());
        }
        assert(spec_trim_start(s@) == t0);
        assert(t0.take(n - start) =~= t0);
    }
    let mut end: usize = n;
    while end > start && is_ws(s.get_char(end - 1))
        invariant
            start <= end <= n,
            n == s@.len(),
            t0 == s@.skip(start as int),
            spec_trim_end(t0) == spec_trim_end(t0.take(end - start)),
        decreases end,
    {
        proof {
            assert(t0[end - start - 1] == s@[end - 1]);
            lemma_trim_end_step(t0, end - start);
        }
        end -= 1;
    }
    proof {
        let t = t0.take(end - start);
        if end > start {
            assert(t.last() == s@[end - 1]);
            assert(spec_trim_end(t) == t);
        } else {
            assert(t =~= Seq::<char>::empty());
            assert(spec_trim_end(t) == t);
        }
        assert(t =~= s@.subrange(start as int, end as int));
        assert(spec_trim(s@) == s@.subrange(start as int, end as int));
    }
    let sub = s.substring_char(start, end);
    sub.to_owned()
}

/// Accept or suppress one tag: a tag identical to the last accepted one is
/// suppressed while less than `window` milliseconds have passed on the
/// terminal clock; anything else is accepted.
pub open spec fn spec_debounce_ok(
    last: Option<(Seq<char>, u64)>,
    tag: Seq<char>,
    now: u64,
    window: u64,
) -> bool {
    match last {
        Option::None => true,
        Option::Some((last_tag, last_ms)) => {
            let elapsed: int = if now >= last_ms {
                now - last_ms
            } else {
                0
            };
            !(last_tag == tag && elapsed < window)
        },
    }
}

/// The debouncer state after offering one tag: it advances only when the
/// tag is accepted.
pub open spec fn spec_debounce_step(
    last: Option<(Seq<char>, u64)>,
    tag: Seq<char>,
    now: u64,
    window: u64,
) -> Option<(Seq<char>, u64)> {
    if spec_debounce_ok(last, tag, now, window) {
        Option::Some((tag, now))
    } else {
        last
    }
}

/// Two identical tags less than a window apart: the first is accepted, the
/// second is suppressed.
pub proof fn lemma_debounce_duplicate(tag: Seq<char>, t1: u64, t2: u64, window: u64)
    requires
        t1 <= t2,
        t2 - t1 < window,
    ensures
        spec_debounce_ok(Option::None, tag, t1, window),
        !spec_debounce_ok(
            spec_debounce_step(Option::None, tag, t1, window),
            tag,
            t2,
            window,
        ),
{
}

/// Two different tags are both accepted, whatever their spacing.
pub proof fn lemma_debounce_different(
    last: Option<(Seq<char>, u64)>,
    tag1: Seq<char>,
    tag2: Seq<char>,
    t1: u64,
    t2: u64,
    window: u64,
)
    requires
        tag1 != tag2,
        spec_debounce_ok(last, tag1, t1, window),
    ensures
        spec_debounce_ok(
            spec_debounce_step(last, tag1, t1, window),
            tag2,
            t2,
            window,
        ),
{
}

/// Exec mirror of [`spec_debounce_ok`].
pub fn debounce_ok(last: &Option<(String, u64)>, tag: &str, now: u64, window: u64) -> (b: bool)
    ensures
        b == spec_debounce_ok(view_last(last), tag@, now, window),
{
    match last {
        Option::None => true,
        Option::Some((last_tag, last_ms)) => {
            let elapsed: u64 = if now >= *last_ms {
                now - *last_ms
            } else {
                0
            };
            !(str_eq(last_tag.as_str(), tag) && elapsed < window)
        },
    }
}

/// The debouncer state seen as a pair of plain values.
pub open spec fn view_last(last: &Option<(String, u64)>) -> Option<(Seq<char>, u64)> {
    match last {
        Option::None => Option::None,
        Option::Some((t, m)) => Option::Some((t@, *m)),
    }
}

/// What one poll of the reader queue yields: the first queued tag that the
/// debouncer accepts, the queue that remains after it, and the new
/// debouncer state. Suppressed tags are consumed and dropped.
pub open spec fn spec_poll(
    queue: Seq<Seq<char>>,
    last: Option<(Seq<char>, u64)>,
    now: u64,
    window: u64,
) -> (Option<Seq<char>>, Seq<Seq<char>>, Option<(Seq<char>, u64)>)
    decreases queue.len(),
{
    if queue.len() == 0 {
        (Option::None, queue, last)
    } else if spec_debounce_ok(last, queue[0], now, window) {
        (Option::Some(queue[0]), queue.drop_first(), Option::Some((queue[0], now)))
    } else {
        spec_poll(queue.drop_first(), last, now, window)
    }
}

/// The badge reader front end: raw lines in, debounced tags out.
pub struct RfidReader {
    input_device: String,
    debounce_ms: u64,
    queue: Vec<String>,
    last_scan: Option<(String, u64)>,
}

impl RfidReader {
    pub closed spec fn spec_queue(&self) -> Seq<Seq<char>> {
        self.queue@.map(|i: int, s: String| s@)
    }

    pub closed spec fn spec_last(&self) -> Option<(Seq<char>, u64)> {
        view_last(&self.last_scan)
    }

    pub closed spec fn spec_debounce_ms(&self) -> u64 {
        self.debounce_ms
    }

    pub closed spec fn spec_input_device(&self) -> Seq<char> {
        self.input_device@
    }

    /// A fresh reader for the given input device selector and debounce
    /// window in milliseconds.
    pub fn new(input_device: &str, debounce_ms: u64) -> (r: RfidReader)
        ensures
            r.spec_queue() == Seq::<Seq<char>>::empty(),
            r.spec_last() is None,
            r.spec_debounce_ms() == debounce_ms,
            r.spec_input_device() == input_device@,
    {
        let r = RfidReader {
            input_device: input_device.to_owned(),
            debounce_ms,
            queue: Vec::new(),
            last_scan: Option::None,
        };
        proof {
            assert(r.spec_queue() =~= Seq::<Seq<char>>::empty());
        }
        r
    }

    /// Takes one raw line from the reader thread: surrounding whitespace is
    /// removed and an empty line is discarded.
    pub fn offer(&mut self, line: &str)
        ensures
            final(self).spec_last() == old(self).spec_last(),
            final(self).spec_debounce_ms() == old(self).spec_debounce_ms(),
            final(self).spec_input_device() == old(self).spec_input_device(),
            final(self).spec_queue() == if spec_trim(line@).len() == 0 {
                old(self).spec_queue()
            } else {
                old(self).spec_queue().push(spec_trim(line@))
            },
    {
        let tag = trim_ws(line);
        if tag.unicode_len() > 0 {
            let ghost pre = self.spec_queue();
            self.queue.push(tag);
            proof {
                assert(self.spec_queue() =~= pre.push(spec_trim(line@)));
            }
        }
    }

    /// Hands out the next debounced tag, if any: queued tags are consumed
    /// in order until one passes the debouncer; that one is returned and
    /// becomes the new debouncer state. `now_ms` is the terminal clock.
    pub fn poll(&mut self, now_ms: u64) -> (r: Option<String>)
        ensures
            final(self).spec_debounce_ms() == old(self).spec_debounce_ms(),
            final(self).spec_input_device() == old(self).spec_input_device(),
            ({
                let (tag, rest, last) = spec_poll(
                    old(self).spec_queue(),
                    old(self).spec_last(),
                    now_ms,
                    old(self).spec_debounce_ms(),
                );
                &&& (match (r, tag) {
                    (Option::Some(a), Option::Some(b)) => a@ == b,
                    (Option::None, Option::None) => true,
                    _ => false,
                })
                &&& final(self).spec_queue() == rest
                &&& final(self).spec_last() == last
            }),
    {
        loop
            invariant
                self.spec_debounce_ms() == old(self).spec_debounce_ms(),
                self.spec_input_device() == old(self).spec_input_device(),
                self.spec_last() == old(self).spec_last(),
                spec_poll(
                    old(self).spec_queue(),
                    old(self).spec_last(),
                    now_ms,
                    old(self).spec_debounce_ms(),
                ) == spec_poll(
                    self.spec_queue(),
                    self.spec_last(),
                    now_ms,
                    self.spec_debounce_ms(),
                ),
            decreases self.spec_queue().len(),
        {
            if self.queue.len() == 0 {
                return Option::None;
            }
            let ghost prequeue = self.spec_queue();
            let tag = self.queue.remove(0);
            proof {
                assert(self.spec_queue() =~= prequeue.drop_first());
                assert(prequeue[0] == tag@);
            }
            if debounce_ok(&self.last_scan, tag.as_str(), now_ms, self.debounce_ms) {
                self.last_scan = Option::Some((tag.clone(), now_ms));
                return Option::Some(tag);
            }
        }
    }
}

} // verus!
