use linkal::handlers::calendar_fragment;
use linkal::utils::Calendar;
use linkal::xml::is_parser_safe;

fn chars(s: &str) -> Vec<char> {
    s.chars().collect()
}

fn safe(s: &str) -> bool {
    is_parser_safe(&chars(s))
}

fn nested(depth: usize) -> String {
    let mut s = String::new();
    for _ in 0..depth {
        s.push_str("<a>");
    }
    for _ in 0..depth {
        s.push_str("</a>");
    }
    s
}

fn cal() -> Calendar {
    Calendar {
        name: "N".to_string(),
        url: "https://h/a/b".to_string(),
        path: "b".to_string(),
        color: None,
    }
}

#[test]
fn plain_documents_are_taken() {
    assert!(safe(""));
    assert!(safe("no xml at all"));
    assert!(safe("<a/>"));
    assert!(safe("<?xml version=\"1.0\" encoding=\"utf-8\"?>\n<a x=\"1\"><b>t\u{e9}xt</b><c/></a>"));
    assert!(safe("  \n<?xml version=\"1.0\"?><a/>"));
    assert!(safe("<?xml never closed <a/>"));
    assert!(safe("<a x=\"> >\" y='>'/>"));
}

#[test]
fn declarations_that_the_parser_cannot_take_are_refused() {
    assert!(!safe("<?xml a=\u{e9}\"?><r/>"));
    assert!(!safe("<!D><?xml a=\u{e9}\"?><r/>"));
    assert!(!safe("<!D><?xml version=\"1.0\"?><r/>"));
    assert!(!safe("<r/><?xml version=\"1.0\"?>"));
    assert!(!safe("x<?xml version=\"1.0\"?><r/>"));
    assert!(!safe("<?xml version=\"1.0\"?><?xml version=\"1.0\"?><r/>"));
    assert!(!safe("<?xml <? ?><r/>"));
    assert!(!safe("\u{a0}<?xml version=\"1.0\"?><r/>"));
}

#[test]
fn comments_sections_and_document_types_are_refused() {
    assert!(!safe("<a><!-- c --></a>"));
    assert!(!safe("<a><![CDATA[x]]></a>"));
    assert!(!safe("<!DOCTYPE a><a/>"));
    assert!(!safe("<a x=\"<!\"/>"));
}

#[test]
fn two_closing_brackets_in_a_row_are_refused() {
    assert!(!safe("<a><b></b>></a>"));
    assert!(!safe("<a/>>"));
    assert!(!safe("<a>x >> y</a>"));
}

#[test]
fn nesting_is_counted_over_open_elements() {
    let mut wide = String::from("<r>");
    for _ in 0..1000 {
        wide.push_str("<a x=\"1\"/><b>t</b><c y='/>'></c>");
    }
    wide.push_str("</r>");
    assert!(safe(&wide));
    let mut unclosed = String::new();
    for _ in 0..1000 {
        unclosed.push_str("<a x=\"/>\">");
    }
    assert!(!safe(&unclosed));
    let mut closing_first = String::new();
    for _ in 0..1000 {
        closing_first.push_str("</a>");
    }
    assert!(safe(&closing_first));
}

#[test]
fn document_nested_to_the_limit_is_read() {
    assert!(safe(&nested(32)));
    let fragment = calendar_fragment(&cal(), &nested(32)).unwrap();
    assert_eq!(fragment.matches("<a>").count(), 30);
}

#[test]
fn document_nested_deeper_is_refused() {
    assert!(!safe(&nested(33)));
    assert!(calendar_fragment(&cal(), &nested(33)).is_none());
    assert!(calendar_fragment(&cal(), &nested(100000)).is_none());
}

const PIECES: [&str; 32] = [
    "<", ">", "/", "a", "b", " ", "\"", "'", "=", "?", "!", ":", "-", "&", ";", "\n",
    "<a>", "</a>", "<b/>", "<a x=\"1\">", "<b y='2'/>", "</b>", "<?xml version=\"1.0\"?>",
    "<?xml", "?>", "\u{e9}", "&amp;", "&#x41;", "x=\"1\"", "<d:prop>", "</d:prop>", "]]",
];

fn pieced(seed: u64, pieces: usize) -> String {
    let mut state = seed.wrapping_mul(6364136223846793005).wrapping_add(1442695040888963407);
    let mut text = String::new();
    for _ in 0..pieces {
        state = state.wrapping_mul(6364136223846793005).wrapping_add(1442695040888963407);
        text.push_str(PIECES[((state >> 33) % 32) as usize]);
    }
    text
}

#[test]
fn whatever_is_taken_is_parsed_without_harm() {
    let mut taken = 0;
    for seed in 0..30000u64 {
        let text = pieced(seed, 1 + (seed % 9) as usize);
        if safe(&text) {
            taken += 1;
        }
        let _ = linkal::propfind::parse_propfind(&text);
        let _ = calendar_fragment(&cal(), &text);
    }
    assert!(taken > 1000);
}

#[test]
fn documents_of_tags_are_parsed_without_harm() {
    let tags = ["<a>", "</a>", "<b/>", "<a x=\"1\">", "<b y='>'/>", "t", " ", "<c>", "</c>"];
    let mut read = 0;
    for seed in 0..20000u64 {
        let mut state = seed.wrapping_mul(2862933555777941757).wrapping_add(3037000493);
        let mut text = String::from("<?xml version=\"1.0\"?><r>");
        for _ in 0..(seed % 12) {
            state = state.wrapping_mul(2862933555777941757).wrapping_add(3037000493);
            text.push_str(tags[((state >> 33) % 9) as usize]);
        }
        text.push_str("</r>");
        if linkal::propfind::parse_propfind(&text).is_ok() {
            read += 1;
        }
        let _ = calendar_fragment(&cal(), &text);
    }
    assert!(read > 100);
}
