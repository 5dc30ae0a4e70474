//! Application settings and their check.

use vstd::prelude::*;

verus! {

broadcast use vstd::string::group_string_axioms;

pub struct AppConfig {
    pub output_path: String,
    pub input_path: Option<String>,
    pub thumbnail_size: u32,
    pub theme: String,
    pub max_cache_size_mb: u32,
}

impl Default for AppConfig {
    fn default() -> (r: Self)
        ensures
            r.output_path@ == Seq::<char>::empty(),
            r.input_path is None,
            r.thumbnail_size == 256,
            r.theme@ == "dark"@,
            r.max_cache_size_mb == 1000,
    {
        AppConfig {
            output_path: String::new(),
            input_path: None,
            thumbnail_size: 256,
            theme: "dark".to_string(),
            max_cache_size_mb: 1000,
        }
    }
}

/// Why a configuration is refused, if it is: no output path, an output path
/// that does not exist, or an input path that does not exist.
pub open spec fn config_refusal(c: AppConfig, output_exists: bool, input_exists: bool) -> Option<Seq<char>> {
    if c.output_path@.len() == 0 {
        Some("Output path not configured"@)
    } else if !output_exists {
        Some("Output path does not exist: "@ + c.output_path@)
    } else {
        match c.input_path {
            Some(p) => if !input_exists {
                Some("Input path does not exist: "@ + p@)
            } else {
                None
            },
            None => None,
        }
    }
}

impl AppConfig {
    /// Checks the configuration, given whether its output path and its input
    /// path (where it has one) exist.
    pub fn validate(&self, output_exists: bool, input_exists: bool) -> (r: Result<(), String>)
        ensures
            config_refusal(*self, output_exists, input_exists) matches Some(m) ==> (r matches Err(e) && e@ == m),
            config_refusal(*self, output_exists, input_exists) is None ==> r is Ok,
    {
        if self.output_path.as_str().unicode_len() == 0 {
            return Err("Output path not configured".to_string());
        }
        if !output_exists {
            let mut m = "Output path does not exist: ".to_string();
            m.append(self.output_path.as_str());
            return Err(m);
        }
        if let Some(input) = &self.input_path {
            if !input_exists {
                let mut m = "Input path does not exist: ".to_string();
                m.append(input.as_str());
                return Err(m);
            }
        }
        Ok(())
    }
}

} // verus!
