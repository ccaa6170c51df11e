//! Requests to the fingerprinting server and the command-line arguments of
//! the scripts that serve them.

use vstd::prelude::*;
use crate::deps::str_views;
use crate::text::{decimal, u64_to_decimal};

verus! {

fn push_text(v: &mut Vec<String>, s: String)
    ensures
        str_views(final(v)@) == str_views(old(v)@).push(s@),
{
    let ghost before = v@;
    let ghost t = s@;
    v.push(s);
    proof {
        assert(str_views(v@) =~= str_views(before).push(t));
    }
}

/// A request to fingerprint a model. The learning rate and the weight
/// decay are carried as the text of their `f32` values, as `f32`'s
/// `Display` writes them.
#[derive(Debug, Clone)]
pub struct FingerprintRequest {
    pub model_path: String,
    pub num_fingerprints: u32,
    pub max_key_length: u32,
    pub max_response_length: u32,
    pub batch_size: u32,
    pub num_train_epochs: u32,
    pub learning_rate: String,
    pub weight_decay: String,
    pub fingerprint_generation_strategy: String,
    pub fingerprints_file_path: String,
}

impl FingerprintRequest {
    /// The arguments of the fingerprinting script: each field of the
    /// request as `--<field>` followed by its value, in the order of the
    /// fields.
    pub fn to_args(&self) -> (v: Vec<String>)
        ensures
            str_views(v@) == seq![
                "--model_path"@,
                self.model_path@,
                "--num_fingerprints"@,
                decimal(self.num_fingerprints as nat),
                "--max_key_length"@,
                decimal(self.max_key_length as nat),
                "--max_response_length"@,
                decimal(self.max_response_length as nat),
                "--batch_size"@,
                decimal(self.batch_size as nat),
                "--num_train_epochs"@,
                decimal(self.num_train_epochs as nat),
                "--learning_rate"@,
                self.learning_rate@,
                "--weight_decay"@,
                self.weight_decay@,
                "--fingerprint_generation_strategy"@,
                self.fingerprint_generation_strategy@,
                "--fingerprints_file_path"@,
                self.fingerprints_file_path@,
            ],
    {
        broadcast use vstd::string::group_string_axioms;

        let mut v: Vec<String> = Vec::new();
        push_text(&mut v, "--model_path".to_string());
        push_text(&mut v, self.model_path.clone());
        push_text(&mut v, "--num_fingerprints".to_string());
        push_text(&mut v, u64_to_decimal(self.num_fingerprints as u64));
        push_text(&mut v, "--max_key_length".to_string());
        push_text(&mut v, u64_to_decimal(self.max_key_length as u64));
        push_text(&mut v, "--max_response_length".to_string());
        push_text(&mut v, u64_to_decimal(self.max_response_length as u64));
        push_text(&mut v, "--batch_size".to_string());
        push_text(&mut v, u64_to_decimal(self.batch_size as u64));
        push_text(&mut v, "--num_train_epochs".to_string());
        push_text(&mut v, u64_to_decimal(self.num_train_epochs as u64));
        push_text(&mut v, "--learning_rate".to_string());
        push_text(&mut v, self.learning_rate.clone());
        push_text(&mut v, "--weight_decay".to_string());
        push_text(&mut v, self.weight_decay.clone());
        push_text(&mut v, "--fingerprint_generation_strategy".to_string());
        push_text(&mut v, self.fingerprint_generation_strategy.clone());
        push_text(&mut v, "--fingerprints_file_path".to_string());
        push_text(&mut v, self.fingerprints_file_path.clone());
        proof {
            assert(str_views(v@) =~= seq![
                "--model_path"@,
                self.model_path@,
                "--num_fingerprints"@,
                decimal(self.num_fingerprints as nat),
                "--max_key_length"@,
                decimal(self.max_key_length as nat),
                "--max_response_length"@,
                decimal(self.max_response_length as nat),
                "--batch_size"@,
                decimal(self.batch_size as nat),
                "--num_train_epochs"@,
                decimal(self.num_train_epochs as nat),
                "--learning_rate"@,
                self.learning_rate@,
                "--weight_decay"@,
                self.weight_decay@,
                "--fingerprint_generation_strategy"@,
                self.fingerprint_generation_strategy@,
                "--fingerprints_file_path"@,
                self.fingerprints_file_path@,
            ]);
        }
        v
    }
}

/// A request to generate fingerprint keys and responses.
#[derive(Debug, Clone)]
pub struct GenerateFingerprintRequest {
    pub key_length: u32,
    pub response_length: u32,
    pub num_fingerprints: u32,
    pub batch_size: u32,
    pub model_used_for_key_generation: String,
    pub key_response_strategy: String,
    pub output_file: String,
}

impl GenerateFingerprintRequest {
    /// The arguments of the generation script.
    pub fn to_args(&self) -> (v: Vec<String>)
        ensures
            str_views(v@) == seq![
                "--key_length"@,
                decimal(self.key_length as nat),
                "--response_length"@,
                decimal(self.response_length as nat),
                "--num_fingerprints"@,
                decimal(self.num_fingerprints as nat),
                "--batch_size"@,
                decimal(self.batch_size as nat),
                "--model_used_for_key_generation"@,
                self.model_used_for_key_generation@,
                "--key_response_strategy"@,
                self.key_response_strategy@,
                "--output_file"@,
                self.output_file@,
            ],
    {
        broadcast use vstd::string::group_string_axioms;

        let mut v: Vec<String> = Vec::new();
        push_text(&mut v, "--key_length".to_string());
        push_text(&mut v, u64_to_decimal(self.key_length as u64));
        push_text(&mut v, "--response_length".to_string());
        push_text(&mut v, u64_to_decimal(self.response_length as u64));
        push_text(&mut v, "--num_fingerprints".to_string());
        push_text(&mut v, u64_to_decimal(self.num_fingerprints as u64));
        push_text(&mut v, "--batch_size".to_string());
        push_text(&mut v, u64_to_decimal(self.batch_size as u64));
        push_text(&mut v, "--model_used_for_key_generation".to_string());
        push_text(&mut v, self.model_used_for_key_generation.clone());
        push_text(&mut v, "--key_response_strategy".to_string());
        push_text(&mut v, self.key_response_strategy.clone());
        push_text(&mut v, "--output_file".to_string());
        push_text(&mut v, self.output_file.clone());
        proof {
            assert(str_views(v@) =~= seq![
                "--key_length"@,
                decimal(self.key_length as nat),
                "--response_length"@,
                decimal(self.response_length as nat),
                "--num_fingerprints"@,
                decimal(self.num_fingerprints as nat),
                "--batch_size"@,
                decimal(self.batch_size as nat),
                "--model_used_for_key_generation"@,
                self.model_used_for_key_generation@,
                "--key_response_strategy"@,
                self.key_response_strategy@,
                "--output_file"@,
                self.output_file@,
            ]);
        }
        v
    }
}

} // verus!
