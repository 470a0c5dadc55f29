//! The effective Java launch settings for one game start: the global
//! configuration merged with any per-instance overrides, and what they yield
//! for the JVM's command line and for a detection pass.

use vstd::prelude::*;

use crate::config::{JavaConfig, JavaInstallationRecord};
use crate::detection::JavaDetectionConfig;
use crate::text::{dec_chars, dec_rep, push_all, push_str_chars, string_from_chars};

verus! {

/// The settings a launch resolves Java with.
#[derive(Debug, Clone)]
pub struct JavaLaunchSettings {
    pub java_path: Option<String>,
    pub auto_discover: bool,
    pub min_memory_mb: u32,
    pub max_memory_mb: u32,
    pub extra_jvm_args: Vec<String>,
    pub detected_installations: Vec<JavaInstallationRecord>,
}

/// The memory bounds `memory_bounds` settles on: the upper bound is at least
/// the configured minimum but never above the machine's memory, and the lower
/// bound never exceeds the upper.
pub open spec fn spec_memory_bounds(s: JavaLaunchSettings, total_memory_mb: Option<u64>) -> (
    u32,
    u32,
) {
    let max0 = if s.max_memory_mb >= s.min_memory_mb {
        s.max_memory_mb
    } else {
        s.min_memory_mb
    };
    let max1 = match total_memory_mb {
        Some(total) => {
            let available = if total <= u32::MAX as u64 {
                total as u32
            } else {
                u32::MAX
            };
            if max0 <= available {
                max0
            } else {
                available
            }
        },
        None => max0,
    };
    let min1 = if s.min_memory_mb <= max1 {
        s.min_memory_mb
    } else {
        max1
    };
    (min1, max1)
}

impl JavaLaunchSettings {
    /// Clamps the configured memory bounds against the machine's total
    /// memory.
    pub fn memory_bounds(&self, total_memory_mb: Option<u64>) -> (r: (u32, u32))
        ensures
            r == spec_memory_bounds(*self, total_memory_mb),
            r.0 <= r.1,
    {
        let mut max: u32 = if self.max_memory_mb >= self.min_memory_mb {
            self.max_memory_mb
        } else {
            self.min_memory_mb
        };
        match total_memory_mb {
            Some(total) => {
                let available: u32 = if total <= u32::MAX as u64 {
                    total as u32
                } else {
                    u32::MAX
                };
                if max > available {
                    max = available;
                }
            },
            None => {},
        }
        let min: u32 = if self.min_memory_mb <= max {
            self.min_memory_mb
        } else {
            max
        };
        (min, max)
    }

    /// The JVM arguments these settings yield: the two clamped memory flags,
    /// then the configured extra arguments.
    pub fn jvm_args(&self, total_memory_mb: Option<u64>) -> (r: Vec<String>)
        ensures
            r@.len() == 2 + self.extra_jvm_args@.len(),
            r@[0]@ == "-Xms"@ + dec_rep(spec_memory_bounds(*self, total_memory_mb).0 as int)
                + "M"@,
            r@[1]@ == "-Xmx"@ + dec_rep(spec_memory_bounds(*self, total_memory_mb).1 as int)
                + "M"@,
            forall|i: int|
                0 <= i < self.extra_jvm_args@.len() ==> r@[2 + i] == #[trigger] self
                    .extra_jvm_args@[i],
    {
        let (min, max) = self.memory_bounds(total_memory_mb);
        let mut args: Vec<String> = Vec::new();
        let mut a: Vec<char> = Vec::new();
        push_str_chars(&mut a, "-Xms");
        let mind = dec_chars(min as u64);
        push_all(&mut a, &mind);
        push_str_chars(&mut a, "M");
        args.push(string_from_chars(&a));
        let mut b: Vec<char> = Vec::new();
        push_str_chars(&mut b, "-Xmx");
        let maxd = dec_chars(max as u64);
        push_all(&mut b, &maxd);
        push_str_chars(&mut b, "M");
        args.push(string_from_chars(&b));
        let mut i: usize = 0;
        while i < self.extra_jvm_args.len()
            invariant
                i <= self.extra_jvm_args@.len(),
                args@.len() == 2 + i,
                args@[0]@ == "-Xms"@ + dec_rep(
                    spec_memory_bounds(*self, total_memory_mb).0 as int,
                ) + "M"@,
                args@[1]@ == "-Xmx"@ + dec_rep(
                    spec_memory_bounds(*self, total_memory_mb).1 as int,
                ) + "M"@,
                forall|k: int|
                    0 <= k < i ==> args@[2 + k] == #[trigger] self.extra_jvm_args@[k],
            decreases self.extra_jvm_args@.len() - i,
        {
            args.push(self.extra_jvm_args[i].clone());
            i += 1;
        }
        args
    }

    /// What a detection pass is asked to do under these settings.
    pub fn detection_config(&self) -> (r: JavaDetectionConfig)
        ensures
            r.auto_discover == self.auto_discover,
            r.preferred_path == self.java_path,
    {
        JavaDetectionConfig {
            auto_discover: self.auto_discover,
            preferred_path: self.java_path.clone(),
        }
    }

    /// Writes the settings back as the global Java configuration.
    pub fn to_config(&self) -> (r: JavaConfig)
        ensures
            r.java_path == self.java_path,
            r.auto_discover == self.auto_discover,
            r.min_memory_mb == self.min_memory_mb,
            r.max_memory_mb == self.max_memory_mb,
            r.extra_jvm_args@ == self.extra_jvm_args@,
    {
        JavaConfig {
            java_path: self.java_path.clone(),
            auto_discover: self.auto_discover,
            min_memory_mb: self.min_memory_mb,
            max_memory_mb: self.max_memory_mb,
            extra_jvm_args: clone_strings(&self.extra_jvm_args),
            detected_installations: clone_records(&self.detected_installations),
        }
    }

    /// Reads the settings out of the global Java configuration.
    pub fn from_config(config: &JavaConfig) -> (r: JavaLaunchSettings)
        ensures
            r.java_path == config.java_path,
            r.auto_discover == config.auto_discover,
            r.min_memory_mb == config.min_memory_mb,
            r.max_memory_mb == config.max_memory_mb,
            r.extra_jvm_args@ == config.extra_jvm_args@,
    {
        JavaLaunchSettings {
            java_path: config.java_path.clone(),
            auto_discover: config.auto_discover,
            min_memory_mb: config.min_memory_mb,
            max_memory_mb: config.max_memory_mb,
            extra_jvm_args: clone_strings(&config.extra_jvm_args),
            detected_installations: clone_records(&config.detected_installations),
        }
    }
}

fn clone_strings(v: &Vec<String>) -> (r: Vec<String>)
    ensures
        r@ == v@,
{
    let mut out: Vec<String> = Vec::new();
    let mut i: usize = 0;
    while i < v.len()
        invariant
            i <= v@.len(),
            out@ == v@.subrange(0, i as int),
        decreases v@.len() - i,
    {
        out.push(v[i].clone());
        i += 1;
        proof {
            assert(out@ =~= v@.subrange(0, i as int));
        }
    }
    proof {
        assert(out@ =~= v@);
    }
    out
}

fn clone_records(v: &Vec<JavaInstallationRecord>) -> (r: Vec<JavaInstallationRecord>)
    ensures
        r@.len() == v@.len(),
{
    let mut out: Vec<JavaInstallationRecord> = Vec::new();
    let mut i: usize = 0;
    while i < v.len()
        invariant
            i <= v@.len(),
            out@.len() == i,
        decreases v@.len() - i,
    {
        let rec = JavaInstallationRecord {
            id: v[i].id.clone(),
            path: v[i].path.clone(),
            version: clone_opt_string(&v[i].version),
            vendor: clone_opt_string(&v[i].vendor),
        };
        out.push(rec);
        i += 1;
    }
    out
}

fn clone_opt_string(v: &Option<String>) -> (r: Option<String>)
    ensures
        r == *v,
{
    match v {
        Some(s) => Some(s.clone()),
        None => None,
    }
}

} // verus!
