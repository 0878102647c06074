//! Dark-mode adaptation of message HTML. What a colour becomes is computed
//! here in floating point, as whoever calls the library does.

use rustle::darkmode::{
    adapt, colours, named_table, parse, split_declarations, Colour, Piece, Recolour, Role, CANVAS,
    TEXT,
};

#[derive(Clone, Copy, Debug, PartialEq)]
struct Rgba {
    r: f64,
    g: f64,
    b: f64,
    a: f64,
}

impl Rgba {
    fn from_u8(r: u8, g: u8, b: u8) -> Self {
        Rgba {
            r: f64::from(r) / 255.0,
            g: f64::from(g) / 255.0,
            b: f64::from(b) / 255.0,
            a: 1.0,
        }
    }

    fn luma(&self) -> f64 {
        0.299 * self.r + 0.587 * self.g + 0.114 * self.b
    }

    fn to_hsl(self) -> (f64, f64, f64) {
        let max = self.r.max(self.g).max(self.b);
        let min = self.r.min(self.g).min(self.b);
        let l = (max + min) / 2.0;
        if max == min {
            return (0.0, 0.0, l);
        }
        let d = max - min;
        let s = if l > 0.5 {
            d / (2.0 - max - min)
        } else {
            d / (max + min)
        };
        let h = if max == self.r {
            (self.g - self.b) / d + if self.g < self.b { 6.0 } else { 0.0 }
        } else if max == self.g {
            (self.b - self.r) / d + 2.0
        } else {
            (self.r - self.g) / d + 4.0
        } / 6.0;
        (h, s, l)
    }

    fn from_hsl(h: f64, s: f64, l: f64, a: f64) -> Self {
        if s == 0.0 {
            return Rgba {
                r: l,
                g: l,
                b: l,
                a,
            };
        }
        let q = if l < 0.5 {
            l * (1.0 + s)
        } else {
            l + s - l * s
        };
        let p = 2.0 * l - q;
        let channel = |t: f64| {
            let t = if t < 0.0 { t + 1.0 } else { t };
            let t = if t > 1.0 { t - 1.0 } else { t };
            if t < 1.0 / 6.0 {
                p + (q - p) * 6.0 * t
            } else if t < 0.5 {
                q
            } else if t < 2.0 / 3.0 {
                p + (q - p) * (2.0 / 3.0 - t) * 6.0
            } else {
                p
            }
        };
        Rgba {
            r: channel(h + 1.0 / 3.0),
            g: channel(h),
            b: channel(h - 1.0 / 3.0),
            a,
        }
    }

    fn to_css(self) -> String {
        let byte = |v: f64| (v.clamp(0.0, 1.0) * 255.0).round() as u8;
        if self.a >= 1.0 {
            format!(
                "#{:02x}{:02x}{:02x}",
                byte(self.r),
                byte(self.g),
                byte(self.b)
            )
        } else {
            format!(
                "rgba({},{},{},{})",
                byte(self.r),
                byte(self.g),
                byte(self.b),
                self.a
            )
        }
    }
}

fn number(text: &str, per: f64) -> Option<f64> {
    match text.strip_suffix('%') {
        Some(percent) => percent.parse::<f64>().ok().map(|p| p / 100.0),
        None => text.parse::<f64>().ok().map(|v| v / per),
    }
}

fn value_of(colour: Colour) -> Option<Rgba> {
    match colour {
        Colour::Bytes { r, g, b, a } => Some(Rgba {
            a: f64::from(a) / 255.0,
            ..Rgba::from_u8(r, g, b)
        }),
        Colour::Rgb { parts } => Some(Rgba {
            r: number(&parts[0], 255.0)?,
            g: number(&parts[1], 255.0)?,
            b: number(&parts[2], 255.0)?,
            a: parts.get(3).map_or(Some(1.0), |s| number(s, 1.0))?,
        }),
        Colour::Hsl { parts } => {
            let h = parts[0]
                .trim_end_matches("deg")
                .parse::<f64>()
                .ok()?
                .rem_euclid(360.0)
                / 360.0;
            let percent = |s: &str| s.strip_suffix('%')?.parse::<f64>().ok().map(|p| p / 100.0);
            let a = match parts.get(3) {
                Some(s) => percent(s).or_else(|| s.parse().ok())?,
                None => 1.0,
            };
            Some(Rgba::from_hsl(
                h,
                percent(&parts[1])?,
                percent(&parts[2])?,
                a,
            ))
        }
    }
}

fn adapt_colour(colour: Rgba, role: Role) -> Option<Rgba> {
    if colour.a <= 0.0 {
        return None;
    }
    let luma = colour.luma();
    let (h, s, _) = colour.to_hsl();
    let lightness = match role {
        Role::Background if luma > 0.5 => 0.10 + (1.0 - luma) * 0.35,
        Role::Text if luma < 0.5 => 0.94 - luma * 0.6,
        Role::Border if luma < 0.5 => 0.75 - luma * 0.5,
        _ => return None,
    };
    Some(Rgba::from_hsl(h, s, lightness, colour.a))
}

fn table_for(html: &str) -> Vec<Recolour> {
    let mut table = Vec::new();
    for piece in colours(html) {
        if let Piece::Colour { token, role } = piece {
            let css = parse(&token)
                .and_then(value_of)
                .and_then(|colour| adapt_colour(colour, role));
            if let Some(css) = css {
                table.push(Recolour {
                    token,
                    role,
                    css: css.to_css(),
                });
            }
        }
    }
    table
}

fn adapted(html: &str) -> String {
    adapt(html, &table_for(html))
}

#[test]
fn named_table_is_sorted() {
    assert!(named_table().windows(2).all(|w| w[0].0 < w[1].0));
}

#[test]
fn white_canvas_and_black_ink_flip() {
    let html =
        r##"<body bgcolor="#FFFFFF"><p style="color:#000; background-color: white">x</p></body>"##;
    assert_eq!(
        adapted(html),
        format!(
            r##"<body bgcolor="{CANVAS}"><p style="color:{TEXT}; background-color: {CANVAS}">x</p></body>"##
        )
    );
}

#[test]
fn dark_designs_and_mid_tones_are_left_alone() {
    let html = r##"<td style="background:#000000;color:#8bc34a;border:1px solid #6495ed">x</td>"##;
    assert_eq!(adapted(html), html);
}

#[test]
fn highlights_keep_their_hue() {
    let out = adapted(r#"<span style="background: yellow">x</span>"#);
    let hex = out
        .split("background: ")
        .nth(1)
        .unwrap()
        .trim_end_matches("\">x</span>");
    let c = value_of(parse(hex).unwrap()).unwrap();
    let (h, s, l) = c.to_hsl();
    assert!((h - 1.0 / 6.0).abs() < 0.01, "{hex}");
    assert!(s > 0.9 && l < 0.2, "{hex}");
}

#[test]
fn stylesheets_urls_and_comments_survive() {
    let html = "<style>@media all { p { color: black; background: url(x.png) #fff } }</style><!-- <p style=\"color:#000\"> --><div style=\"background:url(data:image/png;base64,AA;BB) #eee\">";
    let out = adapted(html);
    assert!(
        out.contains(&format!("color: {TEXT}; background: url(x.png) {CANVAS}")),
        "{out}"
    );
    assert!(out.contains("<!-- <p style=\"color:#000\"> -->"));
    assert!(
        out.contains("url(data:image/png;base64,AA;BB) #1f1f1f"),
        "{out}"
    );
}

#[test]
fn alpha_and_functional_notation() {
    let out = adapted(r#"<p style="color: rgba(0, 0, 0, 0.5); border-color: rgb(51,51,51)">"#);
    assert!(out.contains("color: rgba(240,240,240,0.5)"), "{out}");
    assert!(out.contains("border-color: #a6a6a6"), "{out}");
    let out = adapted("<td style=\"border-color: windowtext; background: window\">");
    assert!(
        out.contains("border-color: #bfbfbf; background: #1a1a1a"),
        "{out}"
    );
    assert!(!adapted("<p style=\"color: transparent; margin: 0\">").contains('#'));
}

#[test]
fn text_and_comments_are_left_alone() {
    let table = vec![Recolour {
        token: "red".into(),
        role: Role::Text,
        css: "blue".into(),
    }];
    for html in [
        "color: red",
        "a > b; color: red",
        "<!-- <p style=\"color:red\"> -->",
        "1 < 2 red",
        "<p style='color:red",
    ] {
        assert_eq!(adapt(html, &table), html);
    }
    assert_eq!(
        adapt("<p style=color:red>", &table),
        "<p style=\"color:blue\">"
    );
    assert_eq!(
        adapt("<P STYLE='color:red' title='>'>red", &table),
        "<P STYLE='color:blue' title='>'>red"
    );
    assert_eq!(adapt("<font color=red>", &table), "<font color=\"blue\">");
    assert_eq!(
        adapt("<td bgcolor=red bordercolor=red>", &table),
        "<td bgcolor=\"red\" bordercolor=\"red\">"
    );
}

#[test]
fn colours_are_read_in_every_notation() {
    let bytes = |r, g, b, a| Some(Colour::Bytes { r, g, b, a });
    assert_eq!(parse("#fff"), bytes(255, 255, 255, 255));
    assert_eq!(parse("#1a2b3c"), bytes(0x1a, 0x2b, 0x3c, 255));
    assert_eq!(parse("#12345678"), bytes(0x12, 0x34, 0x56, 0x78));
    assert_eq!(parse("#abcd"), bytes(0xaa, 0xbb, 0xcc, 0xdd));
    assert_eq!(parse("#12345"), None);
    assert_eq!(parse("#ggg"), None);
    assert_eq!(parse("RebeccaPurple"), bytes(0x66, 0x33, 0x99, 255));
    assert_eq!(parse("nothing"), None);
    assert_eq!(
        parse("RGB(1, 2 / 3)"),
        Some(Colour::Rgb {
            parts: vec!["1".into(), "2".into(), "3".into()]
        })
    );
    assert_eq!(parse("rgb(1, 2)"), None);
    assert_eq!(
        parse("hsla(1deg, 2%, 3%, 0.5)"),
        Some(Colour::Hsl {
            parts: vec!["1deg".into(), "2%".into(), "3%".into(), "0.5".into()]
        })
    );
}

#[test]
fn declarations_split_outside_parentheses() {
    let style: Vec<char> = "a:url(x;y);b:c)".chars().collect();
    let parts: Vec<String> = split_declarations(&style)
        .iter()
        .map(|part| part.iter().collect())
        .collect();
    assert_eq!(parts, vec!["a:url(x;y)", "b:c)"]);
    assert_eq!(Role::of("Border-Left"), Some(Role::Border));
    assert_eq!(Role::of("margin"), None);
}

#[test]
fn what_precedes_markup_changes_nothing_of_it() {
    let markup = "<p style=\"color:#000\">x</p><!-- <b color=red> --><i>y</i>";
    assert_ne!(adapted(markup), markup);
    let text = "1 > 0; color:#000 ";
    assert_eq!(adapted(&format!("{text}{markup}")), format!("{text}{}", adapted(markup)));
    let comment = "<!-- <p style=\"color:#000\"> - -- -->";
    assert_eq!(
        adapted(&format!("{comment}{markup}")),
        format!("{comment}{}", adapted(markup))
    );
}
