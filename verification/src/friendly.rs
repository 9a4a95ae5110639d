use vstd::prelude::*;
use vstd::string::StringExecFns;
use crate::bridge::yaml_of;
use crate::errors::HffError;
use crate::mapping::{
    build_registry, default_mapping_text, default_registry, lemma_default_mapping_parses,
    load_default_mapping, load_mapping_from_str, mapping_lines, process_mapping,
};
use crate::node::Node;
use crate::reformatting::{json_to_huff, root_ok, walk_root};

verus! {

/// The rule source compiled into the library.
pub fn default_mapping() -> (r: &'static str)
    ensures
        r@ == default_mapping_text(),
{
    crate::mapping::default_mapping()
}

/// Starts a friendly-rendering run; the rule source is the compiled-in
/// default until a file or a string is chosen instead.
pub struct FriendlyBuilder {}

impl FriendlyBuilder {
    /// Chooses a rule file, read when the run is made.
    pub fn with_file(&self, mapping_file: &str) -> (r: FriendlyBuilderFromMappingFile)
        ensures
            r.mapping_file@ == mapping_file@,
    {
        FriendlyBuilderFromMappingFile { mapping_file: String::from_str(mapping_file) }
    }

    /// Chooses an inline rule source.
    pub fn with_string(&self, mapping_str: &str) -> (r: FriendlyBuilderFromMappingString)
        ensures
            r.mapping_str@ == mapping_str@,
    {
        FriendlyBuilderFromMappingString { mapping_str: String::from_str(mapping_str) }
    }

    /// Runs the engine on the document with the compiled-in rule source,
    /// which is known to parse.
    pub fn run(&self, fhir_obj: Node) -> (r: Result<String, HffError>)
        requires
            root_ok(default_registry(), fhir_obj@),
        ensures
            match walk_root(default_registry(), fhir_obj@) {
                Err(e) => r matches Err(e2) && e2 == e,
                Ok(w) => match yaml_of(w) {
                    Some(s) => r matches Ok(y) && y@ == s,
                    None => r matches Err(e2) && e2 == HffError::Serialization,
                },
            },
    {
        proof {
            lemma_default_mapping_parses();
        }
        let mapping = match load_default_mapping() {
            Ok(m) => m,
            Err(_) => {
                proof {
                    assert(false);
                }
                return Err(HffError::RuleSourceFormat);
            },
        };
        let formatters = match process_mapping(&mapping) {
            Ok(f) => f,
            Err(_) => {
                proof {
                    assert(false);
                }
                return Err(HffError::RuleSourceFormat);
            },
        };
        json_to_huff(fhir_obj, &formatters)
    }
}

/// A run whose rules come from a file; reading the file is the caller's
/// part, the path is held here.
pub struct FriendlyBuilderFromMappingFile {
    pub mapping_file: String,
}

/// A run whose rules come from an inline string.
pub struct FriendlyBuilderFromMappingString {
    pub mapping_str: String,
}

impl FriendlyBuilderFromMappingString {
    /// Runs the engine on the document with the chosen inline rule source.
    pub fn run(&self, fhir_obj: Node) -> (r: Result<String, HffError>)
        requires
            match build_registry(mapping_lines(self.mapping_str@)) {
                Ok(m) => root_ok(m, fhir_obj@),
                Err(_) => true,
            },
        ensures
            match build_registry(mapping_lines(self.mapping_str@)) {
                Err(e) => r matches Err(e2) && e2 == e,
                Ok(m) => match walk_root(m, fhir_obj@) {
                    Err(e) => r matches Err(e2) && e2 == e,
                    Ok(w) => match yaml_of(w) {
                        Some(s) => r matches Ok(y) && y@ == s,
                        None => r matches Err(e2) && e2 == HffError::Serialization,
                    },
                },
            },
    {
        let mapping = match load_mapping_from_str(self.mapping_str.as_str()) {
            Ok(m) => m,
            Err(_) => {
                proof {
                    assert(false);
                }
                return Err(HffError::RuleSourceFormat);
            },
        };
        let formatters = match process_mapping(&mapping) {
            Ok(f) => f,
            Err(e) => {
                return Err(e);
            },
        };
        json_to_huff(fhir_obj, &formatters)
    }
}

/// A fresh builder.
pub fn friendly() -> FriendlyBuilder {
    FriendlyBuilder {}
}

} // verus!
