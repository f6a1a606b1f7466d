use galaxy_roamer::creatures::CreatureKind;
use galaxy_roamer::save::{deserialize, serialize, SaveData};
use galaxy_roamer::text::float_text_in;

fn sample() -> SaveData {
    SaveData {
        level: 7,
        exp: 120,
        hp: 56.0f32.to_string(),
        max_hp: 62.0f32.to_string(),
        sp: 37.0f32.to_string(),
        max_sp: 39.0f32.to_string(),
        crystals: 240,
        disc: 19,
        bait: 11,
        heal: 6,
        revive: 3,
        flash: 4,
        antidote: 5,
        party: vec![(CreatureKind::Flarehog, 12), (CreatureKind::Aquabud, 8)],
    }
}

#[test]
fn save_round_trips() {
    let d = sample();
    let back = deserialize(&serialize(&d)).expect("parses");
    assert_eq!(back, d);
}

#[test]
fn deserialize_rejects_garbage() {
    assert!(deserialize("not a save").is_none());
}

#[test]
fn serialize_writes_one_field_per_line() {
    let text = serialize(&sample());
    assert_eq!(
        text,
        "level=7\nexp=120\nhp=56\nmaxhp=62\nsp=37\nmaxsp=39\ncrystals=240\ndisc=19\nbait=11\nheal=6\nrevive=3\nflash=4\nantidote=5\nparty=Flarehog:12,Aquabud:8\n"
    );
}

#[test]
fn empty_party_round_trips() {
    let mut d = sample();
    d.party.clear();
    let text = serialize(&d);
    assert!(text.ends_with("party=\n"));
    assert_eq!(deserialize(&text), Some(d));
}

#[test]
fn antidote_defaults_to_zero_when_missing() {
    let text = "level=2\nexp=3\nhp=10\nmaxhp=20\nsp=5\nmaxsp=6\ncrystals=0\ndisc=1\nbait=2\nheal=3\nrevive=4\nflash=5\nparty=Rockfang:4\n";
    let d = deserialize(text).expect("parses without antidote");
    assert_eq!(d.antidote, 0);
    assert_eq!(d.level, 2);
    assert_eq!(d.hp, "10");
    assert_eq!(d.party, vec![(CreatureKind::Rockfang, 4)]);
}

#[test]
fn missing_required_field_is_rejected() {
    // No `exp` line.
    let text = "level=2\nhp=10\nmaxhp=20\nsp=5\nmaxsp=6\ncrystals=0\ndisc=1\nbait=2\nheal=3\nrevive=4\nflash=5\n";
    assert!(deserialize(text).is_none());
}

#[test]
fn unreadable_number_is_rejected() {
    let text = "level=two\nexp=3\nhp=10\nmaxhp=20\nsp=5\nmaxsp=6\ncrystals=0\ndisc=1\nbait=2\nheal=3\nrevive=4\nflash=5\n";
    assert!(deserialize(text).is_none());
}

#[test]
fn later_lines_win_and_whitespace_is_trimmed() {
    let text = "level=1\nlevel = 9 \r\nexp=3\nhp=10\nmaxhp=20\nsp=5\nmaxsp=6\ncrystals=0\ndisc=1\nbait=2\nheal=3\nrevive=4\nflash=5\nparty=Grasshog:3,Nobody:2,Aquabud:x,,Flarehog:+6, Rockfang:2\n";
    let d = deserialize(text).expect("parses");
    assert_eq!(d.level, 9);
    assert_eq!(d.party, vec![(CreatureKind::Grasshog, 3), (CreatureKind::Flarehog, 6)]);
}

fn with_hp(hp: &str) -> String {
    format!(
        "level=2\nexp=3\nhp={hp}\nmaxhp=20\nsp=5\nmaxsp=6\ncrystals=0\ndisc=1\nbait=2\nheal=3\nrevive=4\nflash=5\n"
    )
}

#[test]
fn vital_stats_must_read_as_numbers() {
    assert!(deserialize(&with_hp("abc")).is_none());
    for bad in ["1.2.3", "e5", "1e", "1e+", "+", ".", "--1", "1 2", "infinit", "0x10"] {
        assert!(deserialize(&with_hp(bad)).is_none(), "{bad:?} is not a number");
        assert!(bad.parse::<f32>().is_err(), "std agrees on {bad:?}");
    }
    for good in ["10", "-2.5", "+.5", "5.", "1e3", "1E-3", "2.5e+7", "inf", "-Infinity", "NaN", "nan"] {
        let d = deserialize(&with_hp(good)).expect("parses");
        assert_eq!(d.hp, good);
        assert!(good.parse::<f32>().is_ok(), "std agrees on {good:?}");
    }
}

#[test]
fn float_texts_in_ranges() {
    let text: Vec<char> = "x=-1.5e3;".chars().collect();
    assert!(float_text_in(&text, 2, 8));
    assert!(!float_text_in(&text, 0, 8));
    assert!(!float_text_in(&text, 2, 9));
    assert!(!float_text_in(&text, 2, 2));
}
