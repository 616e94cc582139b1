//! Code formatting configuration: the hardcoded quality standards handed
//! to the external formatter as command-line arguments.

use vstd::prelude::*;

use crate::strutil::spec_decimal;
use crate::strutil::usize_to_string;

verus! {

/// Formatter configuration settings: the hardcoded quality standards,
/// applied uniformly without per-project configuration files.
#[derive(Debug, Clone)]
pub struct RustfmtConfig {
    /// Trailing comma policy.
    pub trailing_comma: &'static str,
    /// Brace placement style.
    pub brace_style: &'static str,
    /// Field alignment threshold.
    pub struct_field_align_threshold: u32,
    /// Wrap long comments.
    pub wrap_comments: bool,
    /// Format code inside doc comments.
    pub format_code_in_doc_comments: bool,
    /// Allow single-line struct literals.
    pub struct_lit_single_line: bool,
    /// Maximum line width.
    pub max_width: u32,
    /// Granularity of import statements.
    pub imports_granularity: &'static str,
    /// Grouping of import statements.
    pub group_imports: &'static str,
    /// Reorder import statements.
    pub reorder_imports: bool,
    /// Enable unstable formatter features.
    pub unstable_features: bool,
}

/// A boolean as the text the formatter expects.
pub open spec fn spec_bool_text(b: bool) -> Seq<char> {
    if b {
        "true"@
    } else {
        "false"@
    }
}

fn bool_text(b: bool) -> (r: &'static str)
    ensures
        r@ == spec_bool_text(b),
{
    proof {
        reveal_strlit("true");
        reveal_strlit("false");
    }
    if b {
        "true"
    } else {
        "false"
    }
}

/// The argument list the configuration turns into: eleven `--config`
/// switches, each followed by one `key=value` setting.
pub open spec fn spec_config_args(c: RustfmtConfig) -> Seq<Seq<char>> {
    seq![
        "--config"@,
        "trailing_comma="@ + c.trailing_comma@,
        "--config"@,
        "brace_style="@ + c.brace_style@,
        "--config"@,
        "struct_field_align_threshold="@ + spec_decimal(c.struct_field_align_threshold as nat),
        "--config"@,
        "wrap_comments="@ + spec_bool_text(c.wrap_comments),
        "--config"@,
        "format_code_in_doc_comments="@ + spec_bool_text(c.format_code_in_doc_comments),
        "--config"@,
        "struct_lit_single_line="@ + spec_bool_text(c.struct_lit_single_line),
        "--config"@,
        "max_width="@ + spec_decimal(c.max_width as nat),
        "--config"@,
        "imports_granularity="@ + c.imports_granularity@,
        "--config"@,
        "group_imports="@ + c.group_imports@,
        "--config"@,
        "reorder_imports="@ + spec_bool_text(c.reorder_imports),
        "--config"@,
        "unstable_features="@ + spec_bool_text(c.unstable_features),
    ]
}

impl Default for RustfmtConfig {
    /// The default configuration matching the project quality standards.
    fn default() -> (r: RustfmtConfig)
        ensures
            r.trailing_comma@ == "Never"@,
            r.brace_style@ == "SameLineWhere"@,
            r.struct_field_align_threshold == 20,
            r.wrap_comments,
            r.format_code_in_doc_comments,
            !r.struct_lit_single_line,
            r.max_width == 99,
            r.imports_granularity@ == "Crate"@,
            r.group_imports@ == "StdExternalCrate"@,
            r.reorder_imports,
            r.unstable_features,
    {
        RustfmtConfig {
            trailing_comma: "Never",
            brace_style: "SameLineWhere",
            struct_field_align_threshold: 20,
            wrap_comments: true,
            format_code_in_doc_comments: true,
            struct_lit_single_line: false,
            max_width: 99,
            imports_granularity: "Crate",
            group_imports: "StdExternalCrate",
            reorder_imports: true,
            unstable_features: true,
        }
    }
}

impl RustfmtConfig {
    /// Converts the configuration to formatter command-line arguments:
    /// one `--config` switch per setting, each followed by its
    /// `key=value` text, twenty-two arguments in all.
    pub fn to_args(&self) -> (r: Vec<String>)
        ensures
            r@.map_values(|a: String| a@) == spec_config_args(*self),
            r@.len() == 22,
    {
        let mut r: Vec<String> = Vec::new();
        r.push("--config".to_owned());
        let mut a1 = "trailing_comma=".to_owned();
        a1.append(self.trailing_comma);
        r.push(a1);
        r.push("--config".to_owned());
        let mut a2 = "brace_style=".to_owned();
        a2.append(self.brace_style);
        r.push(a2);
        r.push("--config".to_owned());
        let mut a3 = "struct_field_align_threshold=".to_owned();
        let t = usize_to_string(self.struct_field_align_threshold as usize);
        a3.append(t.as_str());
        r.push(a3);
        r.push("--config".to_owned());
        let mut a4 = "wrap_comments=".to_owned();
        a4.append(bool_text(self.wrap_comments));
        r.push(a4);
        r.push("--config".to_owned());
        let mut a5 = "format_code_in_doc_comments=".to_owned();
        a5.append(bool_text(self.format_code_in_doc_comments));
        r.push(a5);
        r.push("--config".to_owned());
        let mut a6 = "struct_lit_single_line=".to_owned();
        a6.append(bool_text(self.struct_lit_single_line));
        r.push(a6);
        r.push("--config".to_owned());
        let mut a7 = "max_width=".to_owned();
        let m = usize_to_string(self.max_width as usize);
        a7.append(m.as_str());
        r.push(a7);
        r.push("--config".to_owned());
        let mut a8 = "imports_granularity=".to_owned();
        a8.append(self.imports_granularity);
        r.push(a8);
        r.push("--config".to_owned());
        let mut a9 = "group_imports=".to_owned();
        a9.append(self.group_imports);
        r.push(a9);
        r.push("--config".to_owned());
        let mut a10 = "reorder_imports=".to_owned();
        a10.append(bool_text(self.reorder_imports));
        r.push(a10);
        r.push("--config".to_owned());
        let mut a11 = "unstable_features=".to_owned();
        a11.append(bool_text(self.unstable_features));
        r.push(a11);
        proof {
            assert(r@.map_values(|a: String| a@) =~= spec_config_args(*self));
        }
        r
    }
}

} // verus!
