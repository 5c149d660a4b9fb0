//! The Foundation framework.
use vstd::prelude::*;

pub mod ns_dictionary;
pub mod ns_dictionary_cf_laws;
pub mod ns_dictionary_given_laws;
pub mod ns_dictionary_laws;
pub mod ns_dictionary_method_laws;
pub mod ns_dictionary_methods;
pub mod ns_dictionary_pair_laws;
