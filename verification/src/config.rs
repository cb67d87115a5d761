//! The configuration schema: which specifications to track, and which source
//! trees implement each of them.

use vstd::prelude::*;

verus! {

/// Root configuration.
#[derive(Debug, Clone)]
pub struct Config {
    /// Specifications to track coverage against.
    pub specs: Vec<SpecConfig>,
}

/// Configuration for a single specification.
#[derive(Debug, Clone)]
pub struct SpecConfig {
    /// Name of the spec, for display.
    pub name: String,
    /// Deprecated: the prefix is inferred from the markers in the spec's files.
    /// A config that still sets it is reported as an error.
    pub prefix: Option<String>,
    /// Canonical URL for the specification.
    pub source_url: Option<String>,
    /// Glob patterns for the Markdown files that define the rules.
    pub includes: Vec<String>,
    /// Implementations of this spec.
    pub impls: Vec<Impl>,
}

/// Configuration for a single implementation of a spec.
#[derive(Debug, Clone)]
pub struct Impl {
    /// Name of this implementation.
    pub name: String,
    /// Glob patterns for source files to scan.
    pub includes: Vec<String>,
    /// Glob patterns to exclude.
    pub exclude: Vec<String>,
    /// Glob patterns for test files, where only verify references are allowed.
    pub test_include: Vec<String>,
}

impl Default for Config {
    fn default() -> (config: Self)
        ensures
            config.specs@.len() == 0,
    {
        Config { specs: Vec::new() }
    }
}

/// The views of a list of strings.
pub open spec fn strs(v: Seq<String>) -> Seq<Seq<char>> {
    v.map_values(|s: String| s@)
}

/// The include globs of a list of implementations, in order.
pub open spec fn impl_include_globs(impls: Seq<Impl>) -> Seq<Seq<char>>
    decreases impls.len(),
{
    if impls.len() == 0 {
        Seq::empty()
    } else {
        impl_include_globs(impls.drop_last()) + strs(impls.last().includes@)
    }
}

/// The exclude globs of a list of implementations, in order.
pub open spec fn impl_exclude_globs(impls: Seq<Impl>) -> Seq<Seq<char>>
    decreases impls.len(),
{
    if impls.len() == 0 {
        Seq::empty()
    } else {
        impl_exclude_globs(impls.drop_last()) + strs(impls.last().exclude@)
    }
}

/// Every include glob of the given specs: each spec's own, then those of its
/// implementations.
pub open spec fn include_globs_of(specs: Seq<SpecConfig>) -> Seq<Seq<char>>
    decreases specs.len(),
{
    if specs.len() == 0 {
        Seq::empty()
    } else {
        include_globs_of(specs.drop_last()) + strs(specs.last().includes@) + impl_include_globs(
            specs.last().impls@,
        )
    }
}

/// Every exclude glob of the given specs.
pub open spec fn exclude_globs_of(specs: Seq<SpecConfig>) -> Seq<Seq<char>>
    decreases specs.len(),
{
    if specs.len() == 0 {
        Seq::empty()
    } else {
        exclude_globs_of(specs.drop_last()) + impl_exclude_globs(specs.last().impls@)
    }
}

fn extend_with(out: &mut Vec<String>, items: &Vec<String>)
    ensures
        strs(final(out)@) == strs(old(out)@) + strs(items@),
{
    let mut i: usize = 0;
    while i < items.len()
        invariant
            i <= items@.len(),
            strs(out@) == strs(old(out)@) + strs(items@.subrange(0, i as int)),
        decreases items@.len() - i,
    {
        let ghost before = out@;
        out.push(items[i].clone());
        assert(strs(out@) == strs(before).push(items@[i as int]@));
        assert(strs(items@.subrange(0, i + 1)) == strs(items@.subrange(0, i as int)).push(
            items@[i as int]@,
        ));
        i += 1;
    }
    assert(items@.subrange(0, items@.len() as int) == items@);
}

impl Config {
    /// Every glob that names files to scan: spec files and source files alike.
    pub fn include_globs(&self) -> (globs: Vec<String>)
        ensures
            strs(globs@) == include_globs_of(self.specs@),
    {
        let mut out: Vec<String> = Vec::new();
        let mut i: usize = 0;
        assert(strs(out@) == Seq::<Seq<char>>::empty());
        while i < self.specs.len()
            invariant
                i <= self.specs@.len(),
                strs(out@) == include_globs_of(self.specs@.subrange(0, i as int)),
            decreases self.specs@.len() - i,
        {
            let spec = &self.specs[i];
            let ghost upto = self.specs@.subrange(0, i + 1);
            assert(upto.drop_last() == self.specs@.subrange(0, i as int));
            assert(upto.last() == self.specs@[i as int]);
            extend_with(&mut out, &spec.includes);
            let ghost mid = strs(out@);
            let mut k: usize = 0;
            while k < spec.impls.len()
                invariant
                    k <= spec.impls@.len(),
                    strs(out@) == mid + impl_include_globs(spec.impls@.subrange(0, k as int)),
                decreases spec.impls@.len() - k,
            {
                let ghost part = spec.impls@.subrange(0, k + 1);
                assert(part.drop_last() == spec.impls@.subrange(0, k as int));
                assert(part.last() == spec.impls@[k as int]);
                extend_with(&mut out, &spec.impls[k].includes);
                k += 1;
            }
            assert(spec.impls@.subrange(0, spec.impls@.len() as int) == spec.impls@);
            i += 1;
        }
        assert(self.specs@.subrange(0, self.specs@.len() as int) == self.specs@);
        out
    }

    /// Every glob that takes files out of the scan.
    pub fn exclude_globs(&self) -> (globs: Vec<String>)
        ensures
            strs(globs@) == exclude_globs_of(self.specs@),
    {
        let mut out: Vec<String> = Vec::new();
        let mut i: usize = 0;
        assert(strs(out@) == Seq::<Seq<char>>::empty());
        while i < self.specs.len()
            invariant
                i <= self.specs@.len(),
                strs(out@) == exclude_globs_of(self.specs@.subrange(0, i as int)),
            decreases self.specs@.len() - i,
        {
            let spec = &self.specs[i];
            let ghost upto = self.specs@.subrange(0, i + 1);
            assert(upto.drop_last() == self.specs@.subrange(0, i as int));
            assert(upto.last() == self.specs@[i as int]);
            let ghost mid = strs(out@);
            let mut k: usize = 0;
            while k < spec.impls.len()
                invariant
                    k <= spec.impls@.len(),
                    strs(out@) == mid + impl_exclude_globs(spec.impls@.subrange(0, k as int)),
                decreases spec.impls@.len() - k,
            {
                let ghost part = spec.impls@.subrange(0, k + 1);
                assert(part.drop_last() == spec.impls@.subrange(0, k as int));
                assert(part.last() == spec.impls@[k as int]);
                extend_with(&mut out, &spec.impls[k].exclude);
                k += 1;
            }
            assert(spec.impls@.subrange(0, spec.impls@.len() as int) == spec.impls@);
            i += 1;
        }
        assert(self.specs@.subrange(0, self.specs@.len() as int) == self.specs@);
        out
    }
}

} // verus!
