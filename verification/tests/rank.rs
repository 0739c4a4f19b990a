use kachiclash::rank::{Rank, RankError, RankGroup, RankName, RankSide};
use kachiclash::text::IntErrorKind;

#[test]
fn parse() {
    assert_eq!(
        Rank {
            name: RankName::Yokozuna,
            number: 1,
            side: RankSide::East
        },
        Rank::from_str("Y1e").unwrap()
    );
    assert_eq!(
        Rank {
            name: RankName::Maegashira,
            number: 1,
            side: RankSide::East
        },
        Rank::from_str("M1e").unwrap()
    );
    assert_eq!(
        Rank {
            name: RankName::Maegashira,
            number: 15,
            side: RankSide::West
        },
        Rank::from_str("M15w").unwrap()
    );
}

#[test]
fn serialize() {
    assert_eq!("Y1e", Rank::from_str("Y1e").unwrap().to_string());
    assert_eq!("Y1w", Rank::from_str("Y1w").unwrap().to_string());
    assert_eq!("O2e", Rank::from_str("O2e").unwrap().to_string());
    assert_eq!("M11w", Rank::from_str("M11w").unwrap().to_string());
    assert_eq!("J12w", Rank::from_str("J12w").unwrap().to_string());
    assert_eq!("Ms12w", Rank::from_str("Ms12w").unwrap().to_string());
    assert_eq!("Sd42w", Rank::from_str("Sd42w").unwrap().to_string());
    assert_eq!("Jd51e", Rank::from_str("Jd51e").unwrap().to_string());
    assert_eq!("Jk111w", Rank::from_str("Jk111w").unwrap().to_string());
}

#[test]
fn display_alt() {
    assert_eq!("Yokozuna 1 East", Rank::from_str("Y1e").unwrap().to_string_alt());
    assert_eq!("Yokozuna 1 West", Rank::from_str("Y1w").unwrap().to_string_alt());
    assert_eq!("Ozeki 2 East", Rank::from_str("O2e").unwrap().to_string_alt());
    assert_eq!("Sekiwake 1 West", Rank::from_str("S1w").unwrap().to_string_alt());
    assert_eq!("Komusubi 1 East", Rank::from_str("K1e").unwrap().to_string_alt());
    assert_eq!("Maegashira 1 East", Rank::from_str("M1e").unwrap().to_string_alt());
    assert_eq!("Maegashira 11 West", Rank::from_str("M11w").unwrap().to_string_alt());
    assert_eq!("Juryo 11 West", Rank::from_str("J11w").unwrap().to_string_alt());
    assert_eq!("Makushita 42 West", Rank::from_str("Ms42w").unwrap().to_string_alt());
    assert_eq!("Sandanme 50 East", Rank::from_str("Sd50e").unwrap().to_string_alt());
    assert_eq!("Jonidan 80 East", Rank::from_str("Jd80e").unwrap().to_string_alt());
    assert_eq!("Jonokuchi 123 East", Rank::from_str("Jk123e").unwrap().to_string_alt());
}

#[test]
#[should_panic]
fn reject_lowercase_name() {
    Rank::from_str("o1e").unwrap();
}

#[test]
#[should_panic]
fn reject_invalid_name_1() {
    Rank::from_str("Z1e").unwrap();
}

#[test]
#[should_panic]
fn reject_invalid_name_2() {
    Rank::from_str("Mx1e").unwrap();
}

#[test]
#[should_panic]
fn reject_invalid_name_capitalization() {
    Rank::from_str("MS1e").unwrap();
}

#[test]
#[should_panic]
fn reject_invalid_side() {
    Rank::from_str("M1n").unwrap();
}

#[test]
fn ordering() {
    assert!(Rank::top() < Rank::top().next_lower());
    assert!(Rank::from_str("Y1e").unwrap() < Rank::from_str("M1e").unwrap());
    assert!(Rank::from_str("S2w").unwrap() < Rank::from_str("K1e").unwrap());
    assert!(Rank::from_str("O1e").unwrap() < Rank::from_str("O1w").unwrap());
    assert!(Rank::from_str("M3e").unwrap() < Rank::from_str("M3w").unwrap());
    assert!(Rank::from_str("M1e").unwrap() < Rank::from_str("M15e").unwrap());
    assert!(Rank::from_str("O1e").unwrap() < Rank::from_str("M15e").unwrap());
    assert!(Rank::from_str("M15w").unwrap() < Rank::from_str("J1e").unwrap());
    assert!(Rank::from_str("J1e").unwrap() < Rank::from_str("Ms1e").unwrap());
    assert!(Rank::from_str("J1e").unwrap() < Rank::from_str("Sd1e").unwrap());
    assert!(Rank::from_str("J1e").unwrap() < Rank::from_str("Jd1e").unwrap());
    assert!(Rank::from_str("J1e").unwrap() < Rank::from_str("Jk1e").unwrap());
    assert!(Rank::from_str("J1e").unwrap() < Rank::from_str("X1e").unwrap());
}

#[test]
fn parse_long_form() {
    assert_eq!(
        Rank { name: RankName::Maegashira, number: 14, side: RankSide::West },
        Rank::from_str("Maegashira 14 West").unwrap()
    );
    assert_eq!(
        Rank { name: RankName::BanzukeGai, number: 3, side: RankSide::East },
        Rank::from_str("  Banzuke-Gai\t3  east extra").unwrap()
    );
}

#[test]
fn parse_errors_name_the_part() {
    match Rank::from_str("Zz1e") {
        Err(RankError::UnknownRankName(p)) => assert_eq!(p, "Zz"),
        other => panic!("unexpected {:?}", other),
    }
    match Rank::from_str("M1n") {
        Err(RankError::UnknownRankSide(p)) => assert_eq!(p, "n"),
        other => panic!("unexpected {:?}", other),
    }
    match Rank::from_str("Y") {
        Err(RankError::MissingPart(p)) => assert_eq!(p, "too short"),
        other => panic!("unexpected {:?}", other),
    }
    match Rank::from_str("Maegashira") {
        Err(RankError::MissingPart(p)) => assert_eq!(p, "number"),
        other => panic!("unexpected {:?}", other),
    }
    match Rank::from_str("Maegashira 3") {
        Err(RankError::MissingPart(p)) => assert_eq!(p, "side"),
        other => panic!("unexpected {:?}", other),
    }
    match Rank::from_str("       ") {
        Err(RankError::MissingPart(p)) => assert_eq!(p, "name"),
        other => panic!("unexpected {:?}", other),
    }
    match Rank::from_str("M+e") {
        Err(RankError::ParseIntError(k)) => assert_eq!(k, IntErrorKind::InvalidDigit),
        other => panic!("unexpected {:?}", other),
    }
    match Rank::from_str("Ozeki 70000 East") {
        Err(RankError::ParseIntError(k)) => assert_eq!(k, IntErrorKind::PosOverflow),
        other => panic!("unexpected {:?}", other),
    }
    match Rank::from_str("Me") {
        Err(RankError::MissingPart(p)) => assert_eq!(p, "too short"),
        other => panic!("unexpected {:?}", other),
    }
}

#[test]
fn next_lower_walks_the_banzuke() {
    let r = Rank::from_str("K1w").unwrap().next_lower();
    assert_eq!(r, Rank::from_str("M1e").unwrap());
    assert_eq!(Rank::from_str("M17w").unwrap().next_lower(), Rank::from_str("J1e").unwrap());
    assert_eq!(Rank::from_str("J14w").unwrap().next_lower(), Rank::from_str("Ms1e").unwrap());
    assert_eq!(Rank::from_str("M5e").unwrap().next_lower(), Rank::from_str("M5w").unwrap());
    assert_eq!(Rank::from_str("M5w").unwrap().next_lower(), Rank::from_str("M6e").unwrap());
    assert_eq!(Rank::from_str("Jk200w").unwrap().next_lower(), Rank::from_str("Jk201e").unwrap());
}

#[test]
fn groups() {
    assert_eq!(RankGroup::for_rank(RankName::Yokozuna, 1).get(), 1);
    assert_eq!(RankGroup::for_rank(RankName::Komusubi, 2).get(), 2);
    assert_eq!(RankGroup::for_rank(RankName::Maegashira, 5).get(), 3);
    assert_eq!(RankGroup::for_rank(RankName::Maegashira, 6).get(), 4);
    assert_eq!(RankGroup::for_rank(RankName::Maegashira, 11).get(), 5);
    assert_eq!(RankGroup::for_rank(RankName::Juryo, 1).get(), 6);
    assert_eq!(RankGroup::for_rank(RankName::Makushita, 1).get(), 7);
    assert_eq!(RankGroup::for_rank(RankName::Maegashira, 11).as_index(), 4);
    assert_eq!(RankGroup::count(), 5);
    assert!(Rank::from_str("M17w").unwrap().is_makuuchi());
    assert!(!Rank::from_str("J1e").unwrap().is_makuuchi());
    assert_eq!(RankSide::East.other(), RankSide::West);
}

#[test]
fn text_round_trips() {
    for name in [
        RankName::Yokozuna,
        RankName::Ozeki,
        RankName::Sekiwake,
        RankName::Komusubi,
        RankName::Maegashira,
        RankName::Juryo,
        RankName::Makushita,
        RankName::Sandanme,
        RankName::Jonidan,
        RankName::Jonokuchi,
        RankName::BanzukeGai,
    ] {
        for number in [1u16, 9, 17, 100] {
            for side in [RankSide::East, RankSide::West] {
                let r = Rank { name, number, side };
                assert_eq!(Rank::from_str(&r.to_string_alt()).unwrap(), r);
                let short = r.to_string();
                if short.len() <= 6 {
                    assert_eq!(Rank::from_str(&short).unwrap(), r);
                }
            }
        }
    }
}
