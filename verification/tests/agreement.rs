//! The library's own text routines agree with the standard library's on
//! many generated inputs.

use desx::exec_cleanup::{split_basename_and_args, strip_field_codes, tidy_stripped_exec};
use desx::args::parse;
use desx::category_filter::CategoryFilter;
use desx::text::is_whitespace;

const ALPHABET: &[char] = &[
    'a', 'b', '/', '.', ' ', '\t', '\n', '-', '%', '\u{a0}', '\u{2003}', '\u{3000}', 'é',
];

const EXEC_ALPHABET: &[char] = &['%', '%', 'u', 'U', 'f', 'k', 'x', ' ', '\t', 'a', '\u{feff}'];

fn samples() -> Vec<String> {
    generated(ALPHABET)
}

fn generated(alphabet: &[char]) -> Vec<String> {
    let mut out = Vec::new();
    let mut state: u64 = 0x2545_f491_4f6c_dd1d;
    for len in 0..12usize {
        for _ in 0..300 {
            let mut s = String::new();
            for _ in 0..len {
                state ^= state << 13;
                state ^= state >> 7;
                state ^= state << 17;
                s.push(alphabet[(state % alphabet.len() as u64) as usize]);
            }
            out.push(s);
        }
    }
    out
}

fn reference_split(exec: &str) -> (String, String) {
    let trimmed = exec.trim();
    let (head, tail) = match trimmed.split_once(char::is_whitespace) {
        Some((h, t)) => (h, t.trim()),
        None => (trimmed, ""),
    };
    let basename = std::path::Path::new(head)
        .file_name()
        .and_then(|s| s.to_str())
        .unwrap_or(head)
        .to_string();
    (basename, tail.to_string())
}

#[test]
fn whitespace_class_matches_char_is_whitespace() {
    for code in 0..=0x10ffffu32 {
        if let Some(c) = char::from_u32(code) {
            assert_eq!(is_whitespace(c), c.is_whitespace(), "U+{code:04X}");
        }
    }
}

#[test]
fn collapse_and_trim_match_split_whitespace() {
    for s in samples() {
        let expected = s.split_whitespace().collect::<Vec<_>>().join(" ");
        assert_eq!(tidy_stripped_exec(&s), expected, "{s:?}");
    }
}

#[test]
fn basename_split_matches_path_file_name() {
    for s in samples() {
        assert_eq!(split_basename_and_args(&s), reference_split(&s), "{s:?}");
    }
}

fn reference_strip(exec: &str) -> String {
    let field_code = regex::Regex::new(r"%[uUfFick]").unwrap();
    let escaped = exec.replace("%%", "\u{FEFF}");
    let stripped = field_code.replace_all(&escaped, "");
    stripped
        .replace('\u{FEFF}', "%")
        .split_whitespace()
        .collect::<Vec<_>>()
        .join(" ")
}

#[test]
fn field_code_stripping_matches_regex_pipeline() {
    for s in generated(EXEC_ALPHABET) {
        assert_eq!(strip_field_codes(&s).unwrap(), reference_strip(&s), "{s:?}");
    }
}

fn reference_filter(raw: &str) -> Result<Option<CategoryFilter>, String> {
    let mut includes = Vec::new();
    let mut excludes = Vec::new();
    for token in raw.split(',') {
        let token = token.trim();
        if token.is_empty() {
            continue;
        }
        if let Some(name) = token.strip_prefix('-') {
            let name = name.trim();
            if name.is_empty() {
                return Err("category exclusion is missing a name (got bare '-')".to_string());
            }
            excludes.push(name.to_lowercase());
        } else {
            includes.push(token.to_lowercase());
        }
    }
    match (includes.is_empty(), excludes.is_empty()) {
        (true, true) => Ok(None),
        (false, true) => Ok(Some(CategoryFilter::Include(includes))),
        (true, false) => Ok(Some(CategoryFilter::Exclude(excludes))),
        (false, false) => {
            Err("cannot mix included and excluded categories in the same filter".to_string())
        }
    }
}

fn reference_args(args: &[&str]) -> Result<Option<CategoryFilter>, String> {
    let mut iter = args.iter();
    let mut raw_filter: Option<String> = None;
    while let Some(arg) = iter.next() {
        let arg = *arg;
        let value = match arg {
            "--category" | "--categories" => match iter.next() {
                Some(v) => v.to_string(),
                None => return Err(format!("{arg} requires a value")),
            },
            _ if arg.starts_with("--category=") => arg.trim_start_matches("--category=").to_string(),
            _ if arg.starts_with("--categories=") => {
                arg.trim_start_matches("--categories=").to_string()
            }
            _ => return Err(format!("unknown argument: {arg}")),
        };
        if raw_filter.is_some() {
            return Err("--category may only be given once".to_string());
        }
        raw_filter = Some(value);
    }
    match raw_filter {
        Some(raw) => reference_filter(&raw),
        None => Ok(None),
    }
}

const FILTER_ALPHABET: &[char] = &['a', 'G', ',', '-', ' ', '\t', 'Σ', 'é'];

#[test]
fn filter_parsing_matches_split_and_trim() {
    for s in generated(FILTER_ALPHABET) {
        assert_eq!(CategoryFilter::parse(&s), reference_filter(&s), "{s:?}");
    }
}

#[test]
fn argument_parsing_matches_reference() {
    let cases: &[&[&str]] = &[
        &[],
        &["--category"],
        &["--categories", "a"],
        &["--category=--category=a"],
        &["--categories=--categories=-a"],
        &["--categories=--category=a"],
        &["--category=", "--category", "b"],
        &["--category", "a", "--bogus"],
        &["--category", "a", "--category"],
        &["--bogus", "--category"],
        &["--category", "--category"],
        &["--category=a,-b"],
        &["--category", "-"],
    ];
    for args in cases {
        let ours = parse(args).map(|a| a.category_filter);
        assert_eq!(ours, reference_args(args), "{args:?}");
    }
}
