//! The generation loop's state machine.
//!
//! The loop itself performs filesystem writes, so a driver runs it: while the
//! generator is not done, the driver asks for a plan (a sampled size, a
//! sampled directory placement, the next file name), writes the file, and
//! commits the size that was written. The generator records every committed
//! size in ghost history, which carries the run's invariants: the cumulative
//! byte count is the sum of the committed sizes, every size lies within the
//! configured bounds, and the run went on only while the target was not yet
//! reached.

use vstd::prelude::*;
use crate::config::Config;
use crate::digits::{dec_spec, u64_to_string, lemma_dec_spec_wf, lemma_dec_spec_injective};
use crate::rng::{is_segment, rng_new, rng_range, random_payload, sample_segment};
use vstd::string::StringExecFns;
use vstd::string::StrSliceExecFns;

verus! {

/// The sum of a sequence of sizes.
pub open spec fn seq_sum(s: Seq<u64>) -> int
    decreases s.len(),
{
    if s.len() == 0 {
        0
    } else {
        seq_sum(s.drop_last()) + s.last()
    }
}

/// Appending one element adds its value to the sum.
pub proof fn lemma_seq_sum_push(s: Seq<u64>, x: u64)
    ensures
        seq_sum(s.push(x)) == seq_sum(s) + x,
{
    assert(s.push(x).drop_last() =~= s);
    assert(s.push(x).last() == x);
}

/// The name of the file with the given creation index.
pub open spec fn file_name_spec(n: int) -> Seq<char> {
    "file_"@ + dec_spec(n) + ".txt"@
}

/// Renders the name of the file with the given creation index.
pub fn format_file_name(n: u64) -> (s: String)
    ensures
        s@ == file_name_spec(n as int),
{
    let mut s = String::from_str("file_");
    let digits = u64_to_string(n);
    s.append(digits.as_str());
    s.append(".txt");
    proof {
        assert(s@ =~= file_name_spec(n as int));
    }
    s
}

/// Distinct creation indices give distinct file names.
pub proof fn lemma_file_names_unique(a: int, b: int)
    requires
        0 <= a,
        0 <= b,
        a != b,
    ensures
        file_name_spec(a) != file_name_spec(b),
{
    reveal_strlit("file_");
    reveal_strlit(".txt");
    lemma_dec_spec_wf(a);
    lemma_dec_spec_wf(b);
    if file_name_spec(a) == file_name_spec(b) {
        let da = dec_spec(a);
        let db = dec_spec(b);
        assert(file_name_spec(a).len() == 5 + da.len() + 4);
        assert(da.len() == db.len());
        assert forall|k: int| 0 <= k < da.len() implies da[k] == db[k] by {
            assert(file_name_spec(a)[5 + k] == da[k]);
            assert(file_name_spec(b)[5 + k] == db[k]);
        }
        assert(da =~= db);
        lemma_dec_spec_injective(a, b);
    }
}

/// One planned file: the sampled size, the sampled directory segments below
/// the destination root, and the file's name.
pub struct FilePlan {
    /// How many bytes the file shall hold.
    pub size: u64,
    /// The directory names between the destination root and the file.
    pub segments: Vec<String>,
    /// The file's name, `file_<index>.txt`.
    pub file_name: String,
}

/// The generation loop's state: the configuration, the running totals, the
/// random source, and the ghost history of committed sizes.
pub struct Generator {
    /// The run's configuration.
    pub config: Config,
    /// Bytes committed so far.
    pub cumulative: u64,
    /// Files committed so far.
    pub count: u64,
    /// The run's random source.
    pub rng: rand::rngs::ThreadRng,
    /// The committed sizes, in order.
    pub sizes: Ghost<Seq<u64>>,
}

impl Generator {
    /// The run's invariant, maintained at every loop boundary: the totals
    /// agree with the history, every committed size lies within the bounds,
    /// and every committed file was begun while the target was unreached.
    pub open spec fn wf(self) -> bool {
        &&& self.config.wf()
        &&& self.cumulative as int == seq_sum(self.sizes@)
        &&& self.count as int == self.sizes@.len()
        &&& forall|i: int|
            0 <= i < self.sizes@.len() ==> self.config.min_file_size <= #[trigger] self.sizes@[i]
                <= self.config.max_file_size
        &&& forall|i: int|
            0 <= i < self.sizes@.len() ==> seq_sum(#[trigger] self.sizes@.take(i))
                < self.config.target_size
    }

    /// The loop is done once the cumulative bytes reach the target.
    pub open spec fn done_spec(self) -> bool {
        self.cumulative >= self.config.target_size
    }

    /// A fresh run: nothing committed yet.
    pub fn new(config: Config) -> (g: Generator)
        requires
            config.wf(),
        ensures
            g.wf(),
            g.config == config,
            g.cumulative == 0,
            g.count == 0,
            g.sizes@ == Seq::<u64>::empty(),
    {
        let g = Generator {
            config,
            cumulative: 0,
            count: 0,
            rng: rng_new(),
            sizes: Ghost(Seq::empty()),
        };
        proof {
            assert(seq_sum(g.sizes@) == 0);
        }
        g
    }

    /// Whether the target has been reached.
    pub fn done(&self) -> (b: bool)
        ensures
            b == self.done_spec(),
    {
        self.cumulative >= self.config.target_size
    }

    /// Samples the next file: a size within the bounds, a placement at a
    /// depth of at most `max_depth` made of eight-character alphanumeric
    /// segments, and the name carrying the next creation index. Only the
    /// random source advances; the totals and the history stay.
    pub fn plan(&mut self) -> (p: FilePlan)
        requires
            old(self).wf(),
        ensures
            final(self).wf(),
            final(self).config == old(self).config,
            final(self).cumulative == old(self).cumulative,
            final(self).count == old(self).count,
            final(self).sizes == old(self).sizes,
            old(self).config.min_file_size <= p.size <= old(self).config.max_file_size,
            p.segments@.len() <= old(self).config.max_depth,
            forall|i: int| 0 <= i < p.segments@.len() ==> is_segment(#[trigger] p.segments@[i]@),
            p.file_name@ == file_name_spec(old(self).count as int),
    {
        let ghost g0 = *self;
        let size = rng_range(&mut self.rng, self.config.min_file_size, self.config.max_file_size);
        let depth = rng_range(&mut self.rng, 0, self.config.max_depth);
        let mut segments: Vec<String> = Vec::new();
        let mut d: u64 = 0;
        while d < depth
            invariant
                0 <= d <= depth,
                depth <= g0.config.max_depth,
                self.config == g0.config,
                self.cumulative == g0.cumulative,
                self.count == g0.count,
                self.sizes == g0.sizes,
                segments@.len() == d as int,
                forall|i: int| 0 <= i < segments@.len() ==> is_segment(#[trigger] segments@[i]@),
            decreases depth - d,
        {
            let seg = sample_segment(&mut self.rng);
            segments.push(seg);
            d = d + 1;
        }
        let file_name = format_file_name(self.count);
        FilePlan { size, segments, file_name }
    }

    /// Draws the random content for a file of `n` bytes. Only the random
    /// source advances.
    pub fn payload(&mut self, n: usize) -> (v: Vec<u8>)
        requires
            old(self).wf(),
        ensures
            final(self).wf(),
            final(self).config == old(self).config,
            final(self).cumulative == old(self).cumulative,
            final(self).count == old(self).count,
            final(self).sizes == old(self).sizes,
            v@.len() == n,
    {
        random_payload(&mut self.rng, n)
    }

    /// Records one written file: the cumulative bytes grow by its size, the
    /// count by one, and the history by one entry.
    ///
    /// The caller commits only sizes within the configured bounds, only while
    /// the run is not done, and only while the totals cannot overflow.
    pub fn commit(&mut self, size: u64)
        requires
            old(self).wf(),
            !old(self).done_spec(),
            old(self).config.min_file_size <= size <= old(self).config.max_file_size,
            old(self).cumulative + size <= u64::MAX,
            old(self).count < u64::MAX,
        ensures
            final(self).wf(),
            final(self).config == old(self).config,
            final(self).cumulative == old(self).cumulative + size,
            final(self).count == old(self).count + 1,
            final(self).sizes@ == old(self).sizes@.push(size),
    {
        let ghost old_sizes = self.sizes@;
        let ghost target = self.config.target_size;
        self.cumulative = self.cumulative + size;
        self.count = self.count + 1;
        self.sizes = Ghost(self.sizes@.push(size));
        proof {
            lemma_seq_sum_push(old_sizes, size);
            assert forall|i: int| 0 <= i < self.sizes@.len() implies seq_sum(
                #[trigger] self.sizes@.take(i),
            ) < target by {
                if i < old_sizes.len() {
                    assert(self.sizes@.take(i) =~= old_sizes.take(i));
                    assert(seq_sum(old_sizes.take(i)) < target);
                } else {
                    assert(self.sizes@.take(i) =~= old_sizes);
                }
            }
        }
    }
}

/// Law: a finished run of a positive target with positive file sizes lands at
/// or above the target and overshoots by less than one maximal file.
pub proof fn lemma_run_converges(g: Generator)
    requires
        g.wf(),
        g.done_spec(),
        g.config.target_size > 0,
        0 < g.config.min_file_size <= g.config.max_file_size,
    ensures
        g.config.target_size <= g.cumulative < g.config.target_size + g.config.max_file_size,
{
    let sz = g.sizes@;
    if sz.len() == 0 {
        assert(g.cumulative == 0);
        assert(false);
    } else {
        assert(seq_sum(sz.take(sz.len() - 1)) < g.config.target_size);
        assert(sz.take(sz.len() - 1) =~= sz.drop_last());
        assert(sz[sz.len() - 1] <= g.config.max_file_size);
    }
}

/// Law: at every loop boundary the cumulative byte count is exactly the sum
/// of the committed file sizes.
pub proof fn lemma_cumulative_is_sum(g: Generator)
    requires
        g.wf(),
    ensures
        g.cumulative as int == seq_sum(g.sizes@),
{
}

/// Law: every committed file size lies within the configured bounds.
pub proof fn lemma_sizes_in_bounds(g: Generator)
    requires
        g.wf(),
    ensures
        forall|i: int|
            0 <= i < g.sizes@.len() ==> g.config.min_file_size <= #[trigger] g.sizes@[i]
                <= g.config.max_file_size,
{
}

} // verus!
