use delay_mirror::pypi::extract_attr_value;
use delay_mirror::pypi_handler::normalize_package_name;
use delay_mirror::text;
use regex::Regex;

/// Every text over an alphabet up to a length.
fn texts(alphabet: &[char], longest: usize) -> Vec<String> {
    let mut all = vec![String::new()];
    let mut from = 0;
    for _ in 0..longest {
        let to = all.len();
        for i in from..to {
            for c in alphabet {
                let mut s = all[i].clone();
                s.push(*c);
                all.push(s);
            }
        }
        from = to;
    }
    all
}

#[test]
fn names_are_normalized_as_by_the_pattern() {
    let pattern = Regex::new(r"[-_.]+").unwrap();
    for s in texts(&['a', 'B', '-', '_', '.', 'É'], 5) {
        assert_eq!(
            normalize_package_name(&s),
            pattern.replace_all(&s, "-").to_lowercase(),
            "{:?}",
            s
        );
    }
}

#[test]
fn attributes_are_found_as_by_the_pattern() {
    let pattern = Regex::new(r#"ab="([^"]*)""#).unwrap();
    for s in texts(&['a', 'b', '=', '"', ' '], 7) {
        let found = pattern
            .captures(&s)
            .and_then(|groups| groups.get(1))
            .map(|group| group.as_str().to_string());
        assert_eq!(extract_attr_value(&s, "ab"), found, "{:?}", s);
    }
}

#[test]
fn texts_are_taken_apart_as_by_std() {
    for s in texts(&['a', '/', '\r', '\n', 'é'], 6) {
        assert_eq!(text::lines_of(&s), s.lines().collect::<Vec<_>>(), "{:?}", s);
        assert_eq!(
            text::split_text(&s, '/'),
            s.split('/').collect::<Vec<_>>(),
            "{:?}",
            s
        );
        assert_eq!(text::split_once(&s, '/'), s.split_once('/'), "{:?}", s);
        assert_eq!(text::trim_end_char(&s, '/'), s.trim_end_matches('/'), "{:?}", s);
        assert_eq!(text::trim_start_char(&s, '/'), s.trim_start_matches('/'), "{:?}", s);
        assert_eq!(text::trim(&s), s.trim(), "{:?}", s);
        assert_eq!(text::last_piece(&s, '/'), s.rsplit('/').next().unwrap(), "{:?}", s);
        assert_eq!(text::first_piece(&s, '/'), s.split('/').next().unwrap(), "{:?}", s);
    }
}

#[test]
fn texts_are_searched_as_by_std() {
    let parts: Vec<String> = texts(&['a', 'b'], 3).into_iter().skip(1).collect();
    for s in texts(&['a', 'b'], 7) {
        for t in &parts {
            assert_eq!(text::contains(&s, t), s.contains(t.as_str()));
            assert_eq!(text::starts_with(&s, t), s.starts_with(t.as_str()));
            assert_eq!(text::ends_with(&s, t), s.ends_with(t.as_str()));
            assert_eq!(text::trim_end_str(&s, t), s.trim_end_matches(t.as_str()));
            assert_eq!(text::replace_text(&s, t, "c"), s.replace(t.as_str(), "c"));
            assert_eq!(text::is_less(&s, t), s.as_str() < t.as_str());
        }
    }
}
