use regex::Regex;
use wool::grammar::{
    match_add_tags_exec, match_relation_exec, match_relation_with_alias_exec,
    match_remove_tags_exec, match_set_alias_exec, match_text_exec, match_text_with_alias_exec,
};

fn lines() -> Vec<String> {
    let pieces = [
        "/may", " ", "  ", "alias", "tag", "not", "x", "[y]", "Ab", "\t", "\n", "includes", "a-b",
        "\u{a0}", "é", "",
    ];
    let mut out = vec![];
    // every combination of up to five pieces after a fixed start, plus a few fixed lines
    let n = pieces.len();
    for a in 0..n {
        for b in 0..n {
            for c in 0..n {
                for e in [0usize, 1, 2, 3, 4, 6, 7] {
                    let s = format!("{}{}{}{}", pieces[a], pieces[b], pieces[c], pieces[e]);
                    out.push(format!("/may {}", s));
                    out.push(format!("/may {} {}", s, pieces[a]));
                }
            }
        }
    }
    for l in [
        "/may R alias Общий релятивизм",
        "/may R-r includes (R-r).d",
        "/may ((A1.1.2)/(R-r)).3.1 alias R includes A",
        "/may total truth tag (R-r).0",
        "/may total truth not tag (R-r).0",
        "/may (R-r).0 alias (R-r).0_lalala",
        "/may Релятивизм опасен",
        "/may x   y",
        "/may x  y",
        "/may   ",
        "/may  ",
        "/may a alias   ",
        "/may a alias  ",
        "/may a alias F  K   T",
        "/may a alias F K  T",
        "/may a tag tag b",
        "/may a not tag not tag b",
    ] {
        out.push(l.to_string());
    }
    out
}

fn cap(line: &str, re: &Regex) -> Option<Vec<String>> {
    re.captures(line).map(|c| {
        (1..c.len()).map(|i| c.get(i).map(|m| m.as_str().to_string()).unwrap_or_default()).collect()
    })
}

fn sub(v: &[char], a: usize, b: usize) -> String {
    v[a..b].iter().collect()
}

#[test]
fn command_forms_agree_with_regex() {
    let res: Vec<Regex> = [r"^/may +(\S+) +alias +(\S+)$", r"^/may +(\S+(?: +\S+)*) +not tag +(\S+)$", r"^/may +(\S+(?: +\S+)*) +tag +(\S+)$", r"^/may +(\S+) alias +(\S+) +(.+) +(\S+)$", r"^/may +(\S+) +(.+) +(\S+)$", r"^/may +(\S+) +alias +(.+)$", r"^/may +(.+)$"].iter().map(|p| Regex::new(p).unwrap()).collect();
    for line in lines() {
        let v: Vec<char> = line.chars().collect();
        let n = v.len();
        assert_eq!(
            match_set_alias_exec(&v).map(|(a, b, e)| vec![sub(&v, a, b), sub(&v, e, n)]),
            cap(&line, &res[0]),
            "set alias {:?}",
            line
        );
        assert_eq!(
            match_remove_tags_exec(&v).map(|(a, g, y)| vec![sub(&v, a, g), sub(&v, y, n)]),
            cap(&line, &res[1]),
            "remove tags {:?}",
            line
        );
        assert_eq!(
            match_add_tags_exec(&v).map(|(a, g, y)| vec![sub(&v, a, g), sub(&v, y, n)]),
            cap(&line, &res[2]),
            "add tags {:?}",
            line
        );
        assert_eq!(
            match_relation_with_alias_exec(&v).map(|(a, b, f, g, s, e, y)| vec![
                sub(&v, a, b),
                sub(&v, f, g),
                sub(&v, s, e),
                sub(&v, y, n)
            ]),
            cap(&line, &res[3]),
            "relation with alias {:?}",
            line
        );
        assert_eq!(
            match_relation_exec(&v).map(|(a, b, s, e, y)| vec![sub(&v, a, b), sub(&v, s, e), sub(&v, y, n)]),
            cap(&line, &res[4]),
            "relation {:?}",
            line
        );
        assert_eq!(
            match_text_with_alias_exec(&v).map(|(a, b, s)| vec![sub(&v, a, b), sub(&v, s, n)]),
            cap(&line, &res[5]),
            "text with alias {:?}",
            line
        );
        assert_eq!(
            match_text_exec(&v).map(|s| vec![sub(&v, s, n)]),
            cap(&line, &res[6]),
            "text {:?}",
            line
        );
    }
}
