//! Zero-cost checks for standard-library wrappers: which functions of a
//! module must be inlined, whether any wrapper is left un-inlined, and the
//! inlining statistics. The optimizer works on what it needs to know of each
//! function of the LLVM module (its name, the instruction count of each basic
//! block, whether it carries `alwaysinline`, how often it is still called);
//! setting the attribute on the
//! module is left to the caller, which is told which functions to mark.
use vstd::prelude::*;
use crate::text::{starts_with, str_eq};

verus! {

/// What the optimizer reads of one function of the module.
pub struct FunctionFacts {
    pub name: String,
    /// The number of instructions in each basic block, in block order.
    pub block_sizes: Vec<usize>,
    /// Whether the function already carries the `alwaysinline` attribute.
    pub always_inline: bool,
    /// The number of places in the module that still call the function.
    pub call_count: usize,
}

/// Whether `s` begins with `p`.
pub open spec fn has_prefix(s: Seq<char>, p: Seq<char>) -> bool {
    p.len() <= s.len() && s.subrange(0, p.len() as int) == p
}

/// Names of standard-library wrappers: `__stdlib_...` and `__wrapper_...`.
pub open spec fn is_wrapper_name(name: Seq<char>) -> bool {
    has_prefix(name, "__stdlib_"@) || has_prefix(name, "__wrapper_"@)
}

/// Names of conversion wrappers: `__convert_...` and `__string_to_...`.
pub open spec fn is_conversion_name(name: Seq<char>) -> bool {
    has_prefix(name, "__convert_"@) || has_prefix(name, "__string_to_"@)
}

/// A small wrapper: a single basic block of fewer than ten instructions.
pub open spec fn is_small(block_sizes: Seq<usize>) -> bool {
    block_sizes.len() == 1 && block_sizes[0] < 10
}

/// Whether a function must always be inlined: a standard-library or
/// conversion wrapper by its name, or a small wrapper by its size.
pub open spec fn must_inline(name: Seq<char>, block_sizes: Seq<usize>) -> bool {
    is_wrapper_name(name) || is_conversion_name(name) || is_small(block_sizes)
}

/// Whether the zero-cost check looks at a function: its name starts with
/// `__`, and it is neither `main` nor one of the runtime's `vex_...`
/// functions.
pub open spec fn checked_wrapper(name: Seq<char>) -> bool {
    !has_prefix(name, "vex_"@) && name != "main"@ && has_prefix(name, "__"@)
}

/// The message for a wrapper that is still called.
pub open spec fn zero_cost_message(name: Seq<char>) -> Seq<char> {
    "Zero-cost violation: Wrapper '"@ + name + "' not inlined"@
}

/// One message for each checked wrapper of `fs` that is still called, in
/// function order.
pub open spec fn zero_cost_errors(fs: Seq<FunctionFacts>) -> Seq<Seq<char>>
    decreases fs.len(),
{
    if fs.len() == 0 {
        Seq::empty()
    } else {
        let rest = zero_cost_errors(fs.drop_last());
        let f = fs.last();
        if checked_wrapper(f.name@) && f.call_count > 0 {
            rest.push(zero_cost_message(f.name@))
        } else {
            rest
        }
    }
}

/// The number of functions with a wrapper name.
pub open spec fn wrapper_count(fs: Seq<FunctionFacts>) -> nat
    decreases fs.len(),
{
    if fs.len() == 0 {
        0
    } else {
        wrapper_count(fs.drop_last()) + if is_wrapper_name(fs.last().name@) { 1nat } else { 0nat }
    }
}

/// The number of `true` flags.
pub open spec fn true_count(flags: Seq<bool>) -> nat
    decreases flags.len(),
{
    if flags.len() == 0 {
        0
    } else {
        true_count(flags.drop_last()) + if flags.last() { 1nat } else { 0nat }
    }
}

proof fn lemma_wrapper_count_bound(fs: Seq<FunctionFacts>)
    ensures
        wrapper_count(fs) <= fs.len(),
    decreases fs.len(),
{
    if fs.len() > 0 {
        lemma_wrapper_count_bound(fs.drop_last());
    }
}

proof fn lemma_true_count_bound(flags: Seq<bool>)
    ensures
        true_count(flags) <= flags.len(),
    decreases flags.len(),
{
    if flags.len() > 0 {
        lemma_true_count_bound(flags.drop_last());
    }
}

/// Inlining statistics of a module.
pub struct OptimizationStats {
    pub total_functions: usize,
    pub inlined_functions: usize,
    pub wrapper_functions: usize,
}

impl OptimizationStats {
    /// Whether every wrapper is inlined: there is no wrapper, or at least
    /// as many inlined functions as wrappers (an inline percentage of at
    /// least 100).
    pub fn is_acceptable(&self) -> (r: bool)
        ensures
            r == (self.wrapper_functions == 0 || self.inlined_functions >= self.wrapper_functions),
    {
        self.wrapper_functions == 0 || self.inlined_functions >= self.wrapper_functions
    }
}

/// The inline optimizer of one module.
pub struct InlineOptimizer {
    functions: Vec<FunctionFacts>,
    always_inline: Vec<bool>,
}

impl InlineOptimizer {
    #[verifier::type_invariant]
    spec fn flags_match(self) -> bool {
        self.functions@.len() == self.always_inline@.len()
    }

    /// The module's functions, as given.
    pub closed spec fn functions(self) -> Seq<FunctionFacts> {
        self.functions@
    }

    /// Whether each function carries `alwaysinline`, in function order.
    pub closed spec fn inline_flags(self) -> Seq<bool> {
        self.always_inline@
    }

    /// An optimizer for the module whose functions are `functions`.
    pub fn new(functions: Vec<FunctionFacts>) -> (r: Self)
        ensures
            r.functions() == functions@,
            r.inline_flags().len() == functions@.len(),
            forall|i: int| 0 <= i < functions@.len() ==> #[trigger] r.inline_flags()[i] == functions@[i].always_inline,
    {
        let mut flags: Vec<bool> = Vec::new();
        let mut i: usize = 0;
        while i < functions.len()
            invariant
                i <= functions@.len(),
                flags@.len() == i,
                forall|j: int| 0 <= j < i ==> #[trigger] flags@[j] == functions@[j].always_inline,
            decreases functions@.len() - i,
        {
            flags.push(functions[i].always_inline);
            i = i + 1;
        }
        InlineOptimizer { functions, always_inline: flags }
    }

    /// Whether a function is a small wrapper: a single basic block of fewer
    /// than ten instructions. Counting stops as soon as ten are exceeded.
    fn is_small_wrapper(block_sizes: &Vec<usize>) -> (r: bool)
        ensures
            r == is_small(block_sizes@),
    {
        let mut total: usize = 0;
        let mut blocks: usize = 0;
        while blocks < block_sizes.len()
            invariant
                blocks <= block_sizes@.len(),
                total <= 10,
                blocks == 0 ==> total == 0,
                blocks == 1 ==> total == block_sizes@[0],
            decreases block_sizes@.len() - blocks,
        {
            let size = block_sizes[blocks];
            if size > 10 - total {
                return false;
            }
            total = total + size;
            blocks = blocks + 1;
        }
        blocks == 1 && total < 10
    }

    /// Whether a function must always be inlined.
    fn should_inline(f: &FunctionFacts) -> (r: bool)
        ensures
            r == must_inline(f.name@, f.block_sizes@),
    {
        let name = f.name.as_str();
        if starts_with(name, "__stdlib_") || starts_with(name, "__wrapper_") {
            return true;
        }
        if starts_with(name, "__convert_") || starts_with(name, "__string_to_") {
            return true;
        }
        if Self::is_small_wrapper(&f.block_sizes) {
            return true;
        }
        false
    }

    /// Marks every function that must be inlined as `alwaysinline`, and
    /// gives their positions, in function order, for the caller to set the
    /// attribute on the module.
    pub fn optimize_stdlib_wrappers(&mut self) -> (r: Vec<usize>)
        ensures
            final(self).functions() == old(self).functions(),
            final(self).inline_flags().len() == old(self).inline_flags().len(),
            forall|i: int| 0 <= i < old(self).functions().len() ==> #[trigger] final(self).inline_flags()[i]
                == (old(self).inline_flags()[i] || must_inline(old(self).functions()[i].name@, old(self).functions()[i].block_sizes@)),
            forall|j: int| 0 <= j < r@.len() ==> #[trigger] r@[j] < old(self).functions().len()
                && must_inline(old(self).functions()[r@[j] as int].name@, old(self).functions()[r@[j] as int].block_sizes@),
            forall|j: int, k: int| 0 <= j < k < r@.len() ==> r@[j] < r@[k],
            forall|i: int| 0 <= i < old(self).functions().len()
                && must_inline(#[trigger] old(self).functions()[i].name@, old(self).functions()[i].block_sizes@)
                ==> exists|j: int| 0 <= j < r@.len() && r@[j] == i,
    {
        proof {
            use_type_invariant(&*self);
        }
        let mut marked: Vec<usize> = Vec::new();
        let mut flags: Vec<bool> = Vec::new();
        let ghost fs = self.functions@;
        let ghost flags0 = self.always_inline@;
        let n = self.functions.len();
        let mut i: usize = 0;
        while i < n
            invariant
                n == fs.len(),
                fs == self.functions@,
                fs == old(self).functions@,
                flags0 == old(self).always_inline@,
                self.always_inline@ == flags0,
                flags0.len() == n,
                flags@.len() == i,
                flags0.len() == n,
                i <= n,
                forall|j: int| 0 <= j < i ==> #[trigger] flags@[j] == (flags0[j] || must_inline(fs[j].name@, fs[j].block_sizes@)),
                forall|j: int| 0 <= j < marked@.len() ==> #[trigger] marked@[j] < i
                    && must_inline(fs[marked@[j] as int].name@, fs[marked@[j] as int].block_sizes@),
                forall|j: int, k: int| 0 <= j < k < marked@.len() ==> marked@[j] < marked@[k],
                forall|x: int| 0 <= x < i && must_inline(#[trigger] fs[x].name@, fs[x].block_sizes@)
                    ==> exists|j: int| 0 <= j < marked@.len() && marked@[j] == x,
            decreases n - i,
        {
            let wanted = Self::should_inline(&self.functions[i]);
            flags.push(self.always_inline[i] || wanted);
            if wanted {
                let ghost before = marked@;
                marked.push(i);
                proof {
                    assert forall|x: int| 0 <= x < i + 1 && must_inline(#[trigger] fs[x].name@, fs[x].block_sizes@)
                        implies exists|j: int| 0 <= j < marked@.len() && marked@[j] == x by {
                        if x < i {
                            let j = choose|j: int| 0 <= j < before.len() && before[j] == x;
                            assert(marked@[j] == x);
                        } else {
                            assert(marked@[before.len() as int] == x);
                        }
                    }
                }
            }
            i = i + 1;
        }
        self.always_inline = flags;
        marked
    }

    /// Whether a function is still called somewhere in the module.
    fn has_calls_to(f: &FunctionFacts) -> (r: bool)
        ensures
            r == (f.call_count > 0),
    {
        f.call_count > 0
    }

    /// Checks that no wrapper (a function named `__...` other than `main`
    /// and the runtime's `vex_...` functions) is still called: `Ok` when
    /// none is, else one message per such wrapper, in function order.
    pub fn verify_zero_cost(&self) -> (r: Result<(), Vec<String>>)
        ensures
            zero_cost_errors(self.functions()).len() == 0 ==> r is Ok,
            zero_cost_errors(self.functions()).len() > 0 ==> (r matches Err(v)
                && v@.map_values(|e: String| e@) == zero_cost_errors(self.functions())),
    {
        let ghost fs = self.functions@;
        let mut errors: Vec<String> = Vec::new();
        let mut i: usize = 0;
        while i < self.functions.len()
            invariant
                fs == self.functions@,
                i <= fs.len(),
                errors@.map_values(|e: String| e@) == zero_cost_errors(fs.take(i as int)),
            decreases fs.len() - i,
        {
            let f = &self.functions[i];
            let name = f.name.as_str();
            let ghost before = errors@;
            proof {
                assert(fs.take(i + 1).drop_last() =~= fs.take(i as int));
                assert(fs.take(i + 1).last() == fs[i as int]);
            }
            let skip = starts_with(name, "vex_") || str_eq(name, "main") || !starts_with(name, "__");
            if !skip && Self::has_calls_to(f) {
                let mut e = "Zero-cost violation: Wrapper '".to_owned();
                e.append(name);
                e.append("' not inlined");
                errors.push(e);
                assert(errors@.map_values(|e: String| e@) =~= before.map_values(|e: String| e@).push(e@));
            }
            i = i + 1;
        }
        assert(fs.take(fs.len() as int) =~= fs);
        if errors.len() == 0 {
            Ok(())
        } else {
            Err(errors)
        }
    }

    /// The module's inlining statistics: the number of functions, of those
    /// carrying `alwaysinline`, and of standard-library wrappers.
    pub fn get_stats(&self) -> (r: OptimizationStats)
        ensures
            r.total_functions == self.functions().len(),
            r.inlined_functions == true_count(self.inline_flags()),
            r.wrapper_functions == wrapper_count(self.functions()),
    {
        proof {
            use_type_invariant(self);
        }
        let mut total_functions: usize = 0;
        let mut inlined_functions: usize = 0;
        let mut wrapper_functions: usize = 0;
        let mut i: usize = 0;
        while i < self.functions.len()
            invariant
                self.functions@.len() == self.always_inline@.len(),
                i <= self.functions@.len(),
                total_functions == i,
                inlined_functions == true_count(self.always_inline@.take(i as int)),
                wrapper_functions == wrapper_count(self.functions@.take(i as int)),
            decreases self.functions@.len() - i,
        {
            proof {
                assert(self.functions@.take(i + 1).drop_last() =~= self.functions@.take(i as int));
                assert(self.always_inline@.take(i + 1).drop_last() =~= self.always_inline@.take(i as int));
                lemma_wrapper_count_bound(self.functions@.take(i + 1));
                lemma_true_count_bound(self.always_inline@.take(i + 1));
            }
            total_functions = total_functions + 1;
            let name = self.functions[i].name.as_str();
            if starts_with(name, "__stdlib_") || starts_with(name, "__wrapper_") {
                wrapper_functions = wrapper_functions + 1;
            }
            if self.always_inline[i] {
                inlined_functions = inlined_functions + 1;
            }
            i = i + 1;
        }
        proof {
            assert(self.functions@.take(i as int) =~= self.functions@);
            assert(self.always_inline@.take(i as int) =~= self.always_inline@);
        }
        OptimizationStats { total_functions, inlined_functions, wrapper_functions }
    }
}

} // verus!
