use std::path::PathBuf;

use aim_trainer::osu_parser::{
    parse_sections, read_sections, BeatMapOsu, CurveType, HitObject, HitObjectError, OsuError, OsuHeader,
    OsuValue, Point,
};

const MAP: &str = "osu file format v14\r\n\r\n[General]\r\nAudioFilename: audio.mp3\r\nAudioLeadIn: 0\r\nPreviewTime: 40362\r\nCountdown: 0\r\nSampleSet: Soft\r\nStackLeniency: 0.7\r\nMode: 0\r\n\r\n[Editor]\r\nDistanceSpacing: 1.1\r\nBeatDivisor: 4\r\n\r\n[Metadata]\r\nTitle:My Love\r\nTitleUnicode:My Love\r\nArtist:Kuba Oms\r\nCreator:W h i t e\r\nVersion:Normal\r\nSource:\r\nTags:pop\r\nBeatmapID:420620\r\n\r\n[Difficulty]\r\nHPDrainRate:4\r\nCircleSize:4\r\nOverallDifficulty:4\r\nApproachRate:5\r\nSliderMultiplier:1.4\r\nSliderTickRate:1\r\n\r\n[Events]\r\n//Background and Video events\r\n0,0,\"bg.jpg\",0,0\r\n//Break Periods\r\n2,51227,60000\r\n//Storyboard Layer 0 (Background)\r\n\r\n[TimingPoints]\r\n1227,410.958904109589,4,2,1,60,1,0\r\n11501,-100,4,2,1,60,0,0\r\n\r\n\r\n[Colours]\r\nCombo1 : 255,128,64\r\n\r\n[HitObjects]\r\n256,192,1227,5,0,0:0:0:0:\r\n100,200,1638,2,0,B|150:250|200:200,1,140\r\n300,100,2460,6,2,L|350:100,2,70.5,2|0|0\r\n";

fn text(s: &str) -> Vec<char> {
    s.chars().collect()
}

#[test]
fn parser_test() {
    let map = BeatMapOsu::new(
        PathBuf::from(
            "osu_beatmaps/163112 Kuba Oms - My Love.osz/Kuba Oms - My Love (W h i t e) [Normal].osu",
        ),
        MAP,
    )
    .unwrap();
    assert_eq!(map.general.audio_filename, "audio.mp3");
    assert_eq!(map.general.audio_lead_in, 0);
    assert_eq!(map.metadata.title, "My Love");
    assert_eq!(map.metadata.version, "Normal");
    assert_eq!(map.hit_objects.len(), 3);
    assert_eq!(
        map.beat_map_path,
        PathBuf::from(
            "osu_beatmaps/163112 Kuba Oms - My Love.osz/Kuba Oms - My Love (W h i t e) [Normal].osu"
        )
    );
}

#[test]
fn nom_parser_test() {
    let file = parse_sections(&text(MAP)).unwrap();
    assert_eq!(file.version_line, text("osu file format v14"));
    assert_eq!(file.rest, MAP.chars().count());
    let sections = file.sections;
    let headers: Vec<OsuHeader> = sections.iter().map(|(h, _)| *h).collect();
    assert_eq!(
        headers,
        vec![
            OsuHeader::General,
            OsuHeader::Editor,
            OsuHeader::Metadata,
            OsuHeader::Difficulty,
            OsuHeader::Events,
            OsuHeader::TimingPoints,
            OsuHeader::Colours,
            OsuHeader::HitObjects,
        ]
    );
    for (header, value) in &sections {
        match value {
            OsuValue::KV(pairs) => {
                assert!(matches!(
                    header,
                    OsuHeader::General
                        | OsuHeader::Editor
                        | OsuHeader::Metadata
                        | OsuHeader::Difficulty
                        | OsuHeader::Colours
                ));
                for (k, v) in pairs {
                    println!(
                        "{} = {}",
                        k.iter().collect::<String>(),
                        v.iter().collect::<String>()
                    );
                }
            }
            OsuValue::List(rows) => {
                for row in rows {
                    println!("{:?}", row);
                }
            }
        }
    }
}

#[test]
fn key_value_sections_trim_values_and_skip_comments() {
    let sections = parse_sections(&text(MAP)).unwrap().sections;
    let OsuValue::KV(general) = &sections[0].1 else {
        panic!("General holds pairs")
    };
    assert_eq!(general[0].0, text("AudioFilename"));
    assert_eq!(general[0].1, text("audio.mp3"));
    assert_eq!(general.len(), 7);
    let OsuValue::KV(colours) = &sections[6].1 else {
        panic!("Colours holds pairs")
    };
    assert_eq!(colours[0].0, text("Combo1"));
    assert_eq!(colours[0].1, text("255,128,64"));
    let OsuValue::List(events) = &sections[4].1 else {
        panic!("Events holds rows")
    };
    assert_eq!(events.len(), 2);
    assert_eq!(events[0], vec![text("0"), text("0"), text("\"bg.jpg\""), text("0"), text("0")]);
    assert_eq!(events[1], vec![text("2"), text("51227"), text("60000")]);
}

#[test]
fn hit_objects_circle_and_sliders() {
    let map = BeatMapOsu::new(PathBuf::from("m.osu"), MAP).unwrap();
    let circle = &map.hit_objects[0];
    assert_eq!(circle.position, Point { x: 256, y: 192 });
    assert_eq!(circle.time, 1227);
    assert_eq!(circle.type_bitmask, 5);
    assert_eq!(circle.hit_sound, 0);
    assert!(circle.object_params.is_none());
    assert!(circle.hit_sample.is_none());

    let bezier = &map.hit_objects[1];
    let p = bezier.object_params.as_ref().unwrap();
    assert_eq!(p.curve_type, CurveType::Bezier);
    assert_eq!(p.curve_points, vec![Point { x: 150, y: 250 }, Point { x: 200, y: 200 }]);
    assert_eq!(p.slides, 1);
    assert_eq!(p.length, "140");

    let linear = &map.hit_objects[2];
    let p = linear.object_params.as_ref().unwrap();
    assert_eq!(p.curve_type, CurveType::Linear);
    assert_eq!(p.curve_points, vec![Point { x: 350, y: 100 }]);
    assert_eq!(p.slides, 2);
    assert_eq!(p.length, "70.5");
    assert_eq!(p.length.parse::<f32>().unwrap(), 70.5);
}

#[test]
fn later_keys_and_sections_win() {
    let map = "v14\n\n[General]\nAudioFilename: a.mp3\nAudioLeadIn: 5\nAudioFilename: b.mp3\n[Metadata]\nTitle: T\nVersion: V\n[HitObjects]\n1,2,3,1,0\n[Metadata]\nTitle: U\nVersion: W\n";
    let m = BeatMapOsu::new(PathBuf::from("x"), map).unwrap();
    assert_eq!(m.general.audio_filename, "b.mp3");
    assert_eq!(m.general.audio_lead_in, 5);
    assert_eq!(m.metadata.title, "U");
    assert_eq!(m.metadata.version, "W");
    assert_eq!(m.hit_objects.len(), 1);
}

#[test]
fn errors_of_each_kind() {
    let ok_tail = "[Metadata]\nTitle: T\nVersion: V\n[HitObjects]\n1,2,3,1,0\n";
    let with = |general: &str| format!("v14\n\n[General]\n{}{}", general, ok_tail);
    let new = |s: &str| BeatMapOsu::read(PathBuf::from("x"), s).err();
    // `new` gives the syntax errors of the texts it is defined on
    assert_eq!(BeatMapOsu::new(PathBuf::from("x"), "v14").err(), Some(OsuError::Syntax));
    // no line break after the first line
    assert_eq!(new("v14"), Some(OsuError::Syntax));
    // the line break after the first line is the blank space before the first section
    assert_eq!(new("v14\n[General]\nA: b\n"), Some(OsuError::MissingSection));
    // a lone carriage return ends no line
    assert_eq!(new("v14\r x\n\n[General]\nA: b\n"), Some(OsuError::Syntax));
    // no section at all
    assert_eq!(new("v14\n\nnothing"), Some(OsuError::Syntax));
    assert_eq!(new("v14\n\n[Unknown]\nA: b\n"), Some(OsuError::UnknownSection));
    // a body that does not start with an entry
    assert_eq!(new("v14\n\n[General]\n\nA: b\n"), Some(OsuError::MalformedSection));
    // a list section whose last field runs to the end of the text
    assert_eq!(new("v14\n\n[Events]\n1,2"), Some(OsuError::MalformedSection));
    // a key at the end of the text with no colon
    assert_eq!(new("v14\n\n[General]\nA: b\nKey"), Some(OsuError::MalformedSection));
    assert_eq!(new("v14\n\n[General]\nAudioFilename: a\nAudioLeadIn: 0\n"), Some(OsuError::MissingSection));
    assert_eq!(new(&with("AudioLeadIn: 0\n")), Some(OsuError::MissingKey));
    assert_eq!(new(&with("AudioFilename: a\n")), Some(OsuError::MissingKey));
    assert_eq!(new(&with("AudioFilename: a\nAudioLeadIn: -1\n")), Some(OsuError::InvalidLeadIn));
    assert_eq!(
        new("v14\n\n[General]\nAudioFilename: a\nAudioLeadIn: 0\n[Metadata]\nTitle: T\n[HitObjects]\n1,2,3,1,0\n"),
        Some(OsuError::MissingKey)
    );
    assert_eq!(
        new("v14\n\n[General]\nAudioFilename: a\nAudioLeadIn: 0\n[Metadata]\nTitle: T\nVersion: V\n[HitObjects]\n1,2\n"),
        Some(OsuError::InvalidHitObject)
    );
    assert!(new(&with("AudioFilename: a\nAudioLeadIn: 0\n")).is_none());
}

#[test]
fn reading_stops_at_a_bracket_that_opens_no_header() {
    // The title's `[` ends the Metadata body; `[Hard]` then names no section.
    let map = "v14\n\n[Metadata]\nTitle: Song [Hard]\nVersion: V\n";
    assert_eq!(
        BeatMapOsu::read(PathBuf::from("x"), map).err(),
        Some(OsuError::UnknownSection)
    );
    // A `[` that opens no header ends the reading without error.
    let map = "v14\n\n[General]\nAudioFilename: a\nAudioLeadIn: 0\n[Metadata]\nTitle: T\nVersion: V\n[HitObjects]\n1,2,3,1,0\n[ not a header\n[Unknown]\n";
    assert!(BeatMapOsu::new(PathBuf::from("x"), map).is_ok());
    let file = parse_sections(&text(map)).unwrap();
    assert_eq!(file.version_line, text("v14"));
    assert_eq!(file.sections.len(), 3);
    assert_eq!(file.rest, map.find("[ not").unwrap());
    assert_eq!(parse_sections(&text("v14

nothing")).err(), Some(OsuError::Syntax));
    assert_eq!(
        read_sections(&text("v14

[Nope]
A: b
")).err(),
        Some(OsuError::UnknownSection)
    );
}

fn line(fields: &[&str]) -> Result<HitObject, HitObjectError> {
    HitObject::from_fields(&fields.iter().map(|f| f.chars().collect()).collect())
}

#[test]
fn hit_object_from_fields() {
    let h = HitObject::try_from(&["64", "-32", "1000", "1", "8", "0:0:0:0:"]).unwrap();
    assert_eq!(h.position, Point { x: 64, y: -32 });
    assert_eq!(h.time, 1000);
    assert_eq!(h.hit_sound, 8);
    assert!(h.object_params.is_none());
    assert_eq!(
        HitObject::try_from(&["x", "1"]).err(),
        Some(HitObjectError::InvalidNumber)
    );
    assert_eq!(line(&["1"]).err(), Some(HitObjectError::MissingField));
    assert_eq!(line(&["x"]).err(), Some(HitObjectError::InvalidNumber));
    assert_eq!(
        HitObject::try_from(&["1", "2", "3", "256", "0"]).err(),
        Some(HitObjectError::InvalidNumber)
    );
    assert_eq!(
        HitObject::try_from(&["1", "2", "-3", "1", "0"]).err(),
        Some(HitObjectError::InvalidNumber)
    );
    assert_eq!(
        HitObject::try_from(&["+1", "-2147483648", "3", "1", "0"]).unwrap().position,
        Point { x: 1, y: i32::MIN }
    );
    assert_eq!(
        HitObject::try_from(&["1", "2147483648", "3", "1", "0"]).err(),
        Some(HitObjectError::InvalidNumber)
    );
    // slider bit set but no slider fields
    assert_eq!(line(&["1", "2", "3", "2", "0"]).err(), Some(HitObjectError::InvalidSlider));
}

#[test]
fn slider_fields() {
    let slider = |curve: &str, slides: &str, length: &str| {
        line(&["0", "0", "0", "2", "0", curve, slides, length])
    };
    let p = slider(" P| 1 : 2|3:4|5:6 trailing", "1", "1e3").unwrap().object_params.unwrap();
    assert_eq!(p.curve_type, CurveType::PerfectCircle);
    assert_eq!(
        p.curve_points,
        vec![Point { x: 1, y: 2 }, Point { x: 3, y: 4 }, Point { x: 5, y: 6 }]
    );
    // a `|` followed by no point ends the points
    let p = slider("C|1:2|", "3", "inf").unwrap().object_params.unwrap();
    assert_eq!(p.curve_type, CurveType::CentripetalCatmullRom);
    assert_eq!(p.curve_points, vec![Point { x: 1, y: 2 }]);
    assert_eq!(p.slides, 3);
    // a coordinate that is a float but no integer
    assert_eq!(slider("B|1.5:2", "1", "1").err(), Some(HitObjectError::InvalidSlider));
    // an exponent without digits
    assert_eq!(slider("B|1:2|3e:4", "1", "1").err(), Some(HitObjectError::InvalidSlider));
    // no point at all, or an unknown curve letter
    assert_eq!(slider("B|", "1", "1").err(), Some(HitObjectError::InvalidSlider));
    assert_eq!(slider("X|1:2", "1", "1").err(), Some(HitObjectError::InvalidSlider));
    // a length that is no f32
    assert_eq!(slider("B|1:2", "1", "1.2.3").err(), Some(HitObjectError::InvalidSlider));
    assert_eq!(slider("B|1:2", "1", " 1").err(), Some(HitObjectError::InvalidSlider));
    assert_eq!(slider("B|1:2", "x", "1").err(), Some(HitObjectError::InvalidSlider));
}

#[test]
fn curve_type_letters() {
    assert_eq!(CurveType::try_from('B'), Ok(CurveType::Bezier));
    assert_eq!(CurveType::try_from('C'), Ok(CurveType::CentripetalCatmullRom));
    assert_eq!(CurveType::try_from('L'), Ok(CurveType::Linear));
    assert_eq!(CurveType::try_from('P'), Ok(CurveType::PerfectCircle));
    assert_eq!(CurveType::try_from('b'), Err(()));
}
