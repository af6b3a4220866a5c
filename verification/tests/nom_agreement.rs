//! The beatmap reader agrees with a reader built from `nom` combinators on
//! generated texts.
use aim_trainer::osu_parser::{read_sections, CurveType, HitObject, HitObjectError, OsuError, OsuHeader, OsuValue, Point};
use nom::{
    bytes::{
        complete::{is_not, tag},
        take_till,
    },
    character::{
        char,
        complete::{alphanumeric1, line_ending, multispace0, multispace1, not_line_ending, one_of},
    },
    combinator::{opt, recognize},
    multi::{many0, many1, separated_list1},
    number::complete::recognize_float,
    sequence::{delimited, preceded, separated_pair, terminated},
    IResult, Parser,
};

#[derive(Debug, PartialEq)]
enum Body {
    Pairs(Vec<(String, String)>),
    Rows(Vec<Vec<String>>),
}

/// The first line, the sections, and the number of characters read.
type Sections = (String, Vec<(String, Body)>, usize);

fn comments(input: &str) -> IResult<&str, Vec<&str>> {
    many0(terminated(
        preceded(tag("//"), not_line_ending::<&str, nom::error::Error<&str>>),
        multispace0,
    ))
    .parse(input)
}

fn key_value(input: &str) -> IResult<&str, (&str, &str)> {
    terminated(
        separated_pair(
            terminated(recognize(alphanumeric1), multispace0),
            char(':'),
            recognize(not_line_ending::<&str, _>).map(|v: &str| v.trim()),
        ),
        opt(line_ending),
    )
    .parse(input)
}

fn list_value(input: &str) -> IResult<&str, Vec<&str>> {
    delimited(multispace0, separated_list1(char(','), is_not(",\n\r")), multispace0).parse(input)
}

fn header(input: &str) -> IResult<&str, &str> {
    terminated(delimited(char('['), recognize(alphanumeric1), char(']')), line_ending)
        .parse_complete(input)
}

const KV_NAMES: [&str; 5] = ["General", "Editor", "Metadata", "Difficulty", "Colours"];
const LIST_NAMES: [&str; 3] = ["Events", "TimingPoints", "HitObjects"];

fn nom_sections(input: &str) -> Result<Sections, OsuError> {
    let (mut rest, first) =
        terminated(not_line_ending::<&str, nom::error::Error<&str>>, multispace1)
            .parse_complete(input)
            .map_err(|_| OsuError::Syntax)?;
    let mut out = vec![];
    loop {
        let (after, name) = match header(rest) {
            Ok(r) => r,
            Err(_) if out.is_empty() => return Err(OsuError::Syntax),
            Err(_) => {
                let read = input.chars().count() - rest.chars().count();
                return Ok((first.to_string(), out, read));
            }
        };
        let (next, body) = take_till::<_, &str, nom::error::Error<&str>>(|c| c == '[')
            .parse_complete(after)
            .unwrap();
        let value = if KV_NAMES.contains(&name) {
            many1(delimited(comments, key_value, comments))
                .parse(body)
                .map(|(_, v)| {
                    Body::Pairs(v.into_iter().map(|(k, v)| (k.to_string(), v.to_string())).collect())
                })
        } else if LIST_NAMES.contains(&name) {
            many1(delimited(comments, list_value, comments)).parse(body).map(|(_, v)| {
                Body::Rows(
                    v.into_iter().map(|r| r.into_iter().map(|f| f.to_string()).collect()).collect(),
                )
            })
        } else {
            return Err(OsuError::UnknownSection);
        };
        match value {
            Ok(v) => out.push((name.to_string(), v)),
            Err(_) => return Err(OsuError::MalformedSection),
        }
        rest = next;
    }
}

fn header_name(h: OsuHeader) -> &'static str {
    match h {
        OsuHeader::General => "General",
        OsuHeader::Editor => "Editor",
        OsuHeader::Metadata => "Metadata",
        OsuHeader::Difficulty => "Difficulty",
        OsuHeader::Events => "Events",
        OsuHeader::TimingPoints => "TimingPoints",
        OsuHeader::Colours => "Colours",
        OsuHeader::HitObjects => "HitObjects",
    }
}

fn s(v: &[char]) -> String {
    v.iter().collect()
}

fn library_sections(input: &str) -> Result<Sections, OsuError> {
    let t: Vec<char> = input.chars().collect();
    read_sections(&t).map(|file| {
        let secs = file
            .sections
            .into_iter()
            .map(|(h, v)| {
                let body = match v {
                    OsuValue::KV(p) => Body::Pairs(p.iter().map(|(k, v)| (s(k), s(v))).collect()),
                    OsuValue::List(r) => {
                        Body::Rows(r.iter().map(|row| row.iter().map(|f| s(f)).collect()).collect())
                    }
                };
                (header_name(h).to_string(), body)
            })
            .collect();
        (s(&file.version_line), secs, file.rest)
    })
}

struct Lcg(u64);

impl Lcg {
    fn next(&mut self, n: usize) -> usize {
        self.0 = self.0.wrapping_mul(6364136223846793005).wrapping_add(1442695040888963407);
        ((self.0 >> 33) as usize) % n
    }
}

const PIECES: [&str; 34] = [
    "[General]\n", "[General]\r\n", "[Metadata]\n", "[Events]\n", "[HitObjects]\r\n", "[Colours]\n",
    "[Nope]\n", "[]\n", "[General]x\n", "Key: value\n", "Key:value\r\n", "Key :  spaced \u{3000}\n",
    "K\u{e9}y: v\n", "Key: a\rb\n", "Key\n", "Key", "Key: tail", "//comment\n", "// c\r\n\r\n",
    "\n", "\r\n", " ", "1,2,3\n", "1,,2\n", ",1\n", "a,b", "1,2\r\n", "x,\"y\",z\n", "[", "]",
    "\u{a0}", "Title: A [B]\n", "9\n", "\t",
];

fn generated(rng: &mut Lcg) -> String {
    let mut text = String::from(if rng.next(4) == 0 { "osu file format v14" } else { "v14\r\n\r\n" });
    if rng.next(3) == 0 {
        text.push('\n');
    }
    let n = rng.next(12);
    for _ in 0..n {
        text.push_str(PIECES[rng.next(PIECES.len())]);
    }
    text
}

#[test]
fn sections_agree_with_nom() {
    let mut rng = Lcg(7);
    let mut oks = 0;
    for _ in 0..20000 {
        let text = generated(&mut rng);
        let ours = library_sections(&text);
        if ours.is_ok() {
            oks += 1;
        }
        assert_eq!(ours, nom_sections(&text), "{text:?}");
    }
    assert!(oks > 100);
}

#[derive(Debug, PartialEq)]
enum Slider {
    Parsed(CurveType, Vec<Point>, usize, String),
    Rejected,
}

fn nom_slider(fields: &[&str]) -> Slider {
    let point = separated_pair(
        delimited(multispace0::<_, nom::error::Error<&str>>, recognize_float, multispace0),
        char(':'),
        preceded(multispace0, recognize_float),
    );
    if fields.len() < 3 {
        return Slider::Rejected;
    }
    let Ok((_, (letter, texts))) = (
        preceded(multispace0, one_of("BCLP")),
        preceded(char('|'), separated_list1(char('|'), point)),
    )
        .parse_complete(fields[0])
    else {
        return Slider::Rejected;
    };
    let Ok(slides) = fields[1].parse::<usize>() else {
        return Slider::Rejected;
    };
    if fields[2].parse::<f32>().is_err() {
        return Slider::Rejected;
    }
    let mut pts = vec![];
    for (x, y) in texts {
        match (x.trim().parse::<i32>(), y.trim().parse::<i32>()) {
            (Ok(x), Ok(y)) => pts.push(Point { x, y }),
            _ => return Slider::Rejected,
        }
    }
    let curve = match letter {
        'B' => CurveType::Bezier,
        'C' => CurveType::CentripetalCatmullRom,
        'L' => CurveType::Linear,
        _ => CurveType::PerfectCircle,
    };
    Slider::Parsed(curve, pts, slides, fields[2].to_string())
}

const CURVE_PIECES: [&str; 22] = [
    "B", "L", "P", "C", "X", "|", "|", "1", "-2", "+3", "4.5", ".5", "6.", "1e2", "7e", "8E+", ":",
    " ", "\t", "abc", "99999999999", "0",
];

const NUMBERS: [&str; 8] = ["1", "-2", "30", " 4", "5 ", "0", "1.5", "x"];

#[test]
fn slider_fields_agree_with_nom() {
    let mut rng = Lcg(11);
    let mut parsed = 0;
    for _ in 0..20000 {
        let mut curve = String::new();
        if rng.next(2) == 0 {
            curve.push_str(["B|", "L|", "P|", "C|", " B|"][rng.next(5)]);
        }
        if rng.next(2) == 0 {
            for i in 0..1 + rng.next(4) {
                if i > 0 {
                    curve.push('|');
                }
                curve.push_str(NUMBERS[rng.next(NUMBERS.len())]);
                curve.push(':');
                curve.push_str(NUMBERS[rng.next(NUMBERS.len())]);
            }
        } else {
            for _ in 0..rng.next(10) {
                curve.push_str(CURVE_PIECES[rng.next(CURVE_PIECES.len())]);
            }
        }
        let slides = ["1", "2", "0", "-1", "x", "", "3", "1"][rng.next(8)];
        let length = ["100", "1.5", "-.5e1", "inf", "x", "", "1e"][rng.next(7)];
        let fields = ["10", "20", "30", "2", "0", curve.as_str(), slides, length];
        let count = 5 + rng.next(4);
        let expected = nom_slider(&fields[5..count]);
        let got = HitObject::from_fields(
            &fields[..count].iter().map(|f| f.chars().collect()).collect(),
        );
        match (expected, got) {
            (Slider::Parsed(c, pts, sl, len), Ok(h)) => {
                let p = h.object_params.unwrap();
                assert_eq!((p.curve_type, p.curve_points, p.slides, p.length), (c, pts, sl, len));
                parsed += 1;
            }
            (Slider::Rejected, Err(e)) => assert_eq!(e, HitObjectError::InvalidSlider),
            (e, g) => panic!("{fields:?}: {e:?} vs {g:?}"),
        }
    }
    assert!(parsed > 100);
}
