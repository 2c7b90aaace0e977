//! The options a run is started with.

use std::collections::HashMap;
use vstd::prelude::*;
use vstd::string::*;

verus! {

broadcast use vstd::std_specs::hash::group_hash_axioms;

/// A platform release for which a digest ships with the program.
#[derive(Copy, Clone, Debug)]
pub enum JdkVersion {
    Jdk11,
    Jdk17,
    Jdk21,
    Jdk25,
}

impl JdkVersion {
    /// The release number of this version.
    pub open spec fn spec_numerical(&self) -> u16 {
        match self {
            JdkVersion::Jdk11 => 11,
            JdkVersion::Jdk17 => 17,
            JdkVersion::Jdk21 => 21,
            JdkVersion::Jdk25 => 25,
        }
    }

    /// The release number of this version.
    #[verifier::when_used_as_spec(spec_numerical)]
    pub fn numerical(&self) -> (n: u16)
        ensures
            n == self.spec_numerical(),
    {
        match self {
            JdkVersion::Jdk11 => 11,
            JdkVersion::Jdk17 => 17,
            JdkVersion::Jdk21 => 21,
            JdkVersion::Jdk25 => 25,
        }
    }
}

/// The options of a run.
#[derive(Debug)]
pub struct Args {
    /// The class path of the archives to be checked.
    pub classpath: String,
    /// The platform release whose shipped digest is to be used.
    pub java_version: Option<JdkVersion>,
    /// A file with the digest of the platform.
    pub jdk_classinfo: Option<String>,
    /// The number of threads to use.
    pub threads: usize,
    /// The file to write the report to.
    pub output_file: Option<String>,
}

/// The shipped digest of the platform release that the options name, if
/// they name one.
pub fn load_embedded(args: &Args, embedded: &HashMap<u16, &'static str>) -> (r: Option<String>)
    requires
        args.java_version matches Some(v) ==> embedded@.contains_key(v.spec_numerical()),
    ensures
        match args.java_version {
            Some(v) => r matches Some(s) && s@ == embedded@[v.spec_numerical()]@,
            None => r is None,
        },
{
    match args.java_version {
        None => None,
        Some(v) => {
            let java_version = v.numerical();
            match embedded.get(&java_version) {
                Some(text) => Some(String::from_str(*text)),
                None => None,
            }
        },
    }
}

} // verus!
