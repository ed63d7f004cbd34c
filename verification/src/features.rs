//! The kernel's features, set from its command line.
use vstd::prelude::*;
use vstd::string::*;
use crate::usr::text::{str_eq, str_split_whitespace, whitespace_words};
use crate::drivers::fs::fat::{split_on, char_views};

verus! {

/// The features the command line can turn on or off.
#[derive(Clone, Copy, Debug, PartialEq, Eq, Structural)]
pub struct KernelFeatures {
    pub fat_in_mem: bool,
}

/// The features after the option `option` is given the value `value`: the
/// one option known, `fat_in_mem`, is on exactly when its value is `true`.
pub open spec fn with_option(f: KernelFeatures, option: Seq<char>, value: Seq<char>) -> KernelFeatures {
    if option == "fat_in_mem"@ {
        KernelFeatures { fat_in_mem: value == "true"@ }
    } else {
        f
    }
}

impl KernelFeatures {
    /// Gives option `option` the value `value`.
    pub fn update_option(&mut self, option: &str, value: &str)
        ensures
            *final(self) == with_option(*old(self), option@, value@),
    {
        if str_eq(option, "fat_in_mem") {
            self.fat_in_mem = str_eq(value, "true");
        }
    }
}

/// The features after the command-line words `args`, in order: a word
/// of the form `option=value` (exactly one `=`) sets an option, others are
/// ignored.
pub open spec fn features_after(f: KernelFeatures, args: Seq<Seq<char>>) -> KernelFeatures
    decreases args.len(),
{
    if args.len() == 0 {
        f
    } else {
        let prev = features_after(f, args.drop_last());
        let parts = split_on(args.last(), '=');
        if parts.len() == 2 { with_option(prev, parts[0], parts[1]) } else { prev }
    }
}

/// The features the words `args` set, each feature starting on.
pub fn apply_kernel_arguments(args: &Vec<String>) -> (r: KernelFeatures)
    ensures
        r == features_after(KernelFeatures { fat_in_mem: true }, args@.map_values(|x: String| x@)),
{
    let ghost all = args@.map_values(|x: String| x@);
    let mut kernel_features = KernelFeatures { fat_in_mem: true };
    let mut i: usize = 0;
    while i < args.len()
        invariant
            0 <= i <= args@.len(),
            all == args@.map_values(|x: String| x@),
            kernel_features == features_after(KernelFeatures { fat_in_mem: true }, all.subrange(0, i as int)),
        decreases args@.len() - i,
    {
        let item = args[i].as_str();
        let parts = crate::drivers::fs::fat::split_chars(item, '=');
        proof {
            assert(all.subrange(0, i + 1).drop_last() =~= all.subrange(0, i as int));
            assert(all.subrange(0, i + 1).last() == item@);
        }
        if parts.len() == 2 {
            let option: String = crate::usr::text::chars_to_string(&parts[0]);
            let value: String = crate::usr::text::chars_to_string(&parts[1]);
            proof {
                assert(char_views(parts@)[0] == parts@[0]@);
                assert(char_views(parts@)[1] == parts@[1]@);
            }
            kernel_features.update_option(option.as_str(), value.as_str());
        }
        i = i + 1;
    }
    proof {
        assert(all.subrange(0, args@.len() as int) =~= all);
    }
    kernel_features
}

/// The features the kernel command line `cmdline` sets, each feature
/// starting on; without a command line, the defaults.
pub fn parse_kernel_cmdline(cmdline: Option<&str>) -> (r: KernelFeatures)
    ensures
        match cmdline {
            None => r == KernelFeatures { fat_in_mem: true },
            Some(c) => r == features_after(KernelFeatures { fat_in_mem: true }, whitespace_words(c@)),
        },
{
    match cmdline {
        None => KernelFeatures { fat_in_mem: true },
        Some(c) => {
            let words = str_split_whitespace(c);
            apply_kernel_arguments(&words)
        },
    }
}

} // verus!
