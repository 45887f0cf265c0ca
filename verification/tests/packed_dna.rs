use dna::Nuc;
use dna::packed::PackedDna;

#[test]
fn tryfrom_char() {
    // each nucleotide letter converts, case-insensitively
    let a = Nuc::A;
    assert!(a == Nuc::try_from('A').unwrap());
    assert!(a != Nuc::try_from('T').unwrap());
    assert!(a == Nuc::try_from('a').unwrap());

    let c = Nuc::C;
    assert!(c == Nuc::try_from('C').unwrap());
    assert!(c != Nuc::try_from('A').unwrap());
    assert!(c == Nuc::try_from('c').unwrap());

    let g = Nuc::G;
    assert!(g == Nuc::try_from('G').unwrap());
    assert!(g != Nuc::try_from('A').unwrap());
    assert!(g == Nuc::try_from('g').unwrap());

    let t = Nuc::T;
    assert!(t == Nuc::try_from('T').unwrap());
    assert!(t != Nuc::try_from('A').unwrap());
    assert!(t == Nuc::try_from('t').unwrap());

    // anything else is rejected
    assert!(Nuc::try_from('B').is_err());
    assert!(Nuc::try_from('b').is_err());
}

#[test]
fn fromstr_nuc() {
    // each one-letter text converts, case-insensitively
    let a = Nuc::A;
    assert!(a == Nuc::from_str("A").unwrap());
    assert!(a != Nuc::from_str("T").unwrap());
    assert!(a == Nuc::from_str("a").unwrap());

    let c = Nuc::C;
    assert!(c == Nuc::from_str("C").unwrap());
    assert!(c != Nuc::from_str("A").unwrap());
    assert!(c == Nuc::from_str("c").unwrap());

    let g = Nuc::G;
    assert!(g == Nuc::from_str("G").unwrap());
    assert!(g != Nuc::from_str("A").unwrap());
    assert!(g == Nuc::from_str("g").unwrap());

    let t = Nuc::T;
    assert!(t == Nuc::from_str("T").unwrap());
    assert!(t != Nuc::from_str("A").unwrap());
    assert!(t == Nuc::from_str("t").unwrap());

    // other letters, longer texts and the empty text are rejected
    assert!(Nuc::from_str("B").is_err());
    assert!(Nuc::from_str("b").is_err());
    assert!(Nuc::from_str("ATC").is_err());
    assert!(Nuc::from_str("").is_err());
}

#[test]
fn fromstr_packed_dna() {
    // four nucleotides pack into one storage unit
    let case = PackedDna::from_str("ATCG");
    assert!(case.is_ok());
    let unwrap_case = case.unwrap();
    assert!((&unwrap_case).vec() == vec![54u8]);
    assert!((&unwrap_case).len() == 4);

    // the storage is case-insensitive
    let case = PackedDna::from_str("atcg");
    assert!(case.is_ok());
    let unwrap_case = case.unwrap();
    assert!((&unwrap_case).vec() == vec![54u8]);
    assert!((&unwrap_case).len() == 4);

    // more than four nucleotides fill several storage units
    let case = PackedDna::from_str("atcgGGACgact");
    assert!(case.is_ok());
    let unwrap_case = case.unwrap();
    assert!((&unwrap_case).vec() == vec![54u8, 161u8, 135u8]);
    assert!((&unwrap_case).len() == 12);

    // a text with a foreign character is rejected
    let case = PackedDna::from_str("ABCg");
    assert!(case.is_err());

    // the empty text is accepted
    let case = PackedDna::from_str("");
    assert!(case.is_ok());
    let unwrap_case = case.unwrap();
    assert!((&unwrap_case).len() == 0);
}

#[test]
fn fromiter_packed_dna() {
    let v = vec![Nuc::A, Nuc::T, Nuc::C, Nuc::G];
    let case = PackedDna::from_iter(v);
    assert!(case.get(0).unwrap() == Nuc::A);
    assert!(case.get(1).unwrap() == Nuc::T);
    assert!(case.get(2).unwrap() == Nuc::C);
    assert!(case.get(3).unwrap() == Nuc::G);
}

#[test]
fn get_packed_dna() {
    // a sequence of exactly four nucleotides
    let case = PackedDna::from_str("ATGC").unwrap();
    assert!(case.get(0).unwrap() == Nuc::A);
    assert!(case.get(2).unwrap() == Nuc::G);
    // an index past the end
    assert!(case.get(4).is_err());

    // a sequence with a partly filled trailing unit
    let case = PackedDna::from_str("ATGCGGCTA").unwrap();
    assert!(case.get(4).unwrap() == Nuc::G);
    assert!(case.get(8).unwrap() == Nuc::A);
    // an index past the end
    assert!(case.get(9).is_err());

    // the empty sequence holds nothing
    let case = PackedDna::from_str("").unwrap();
    assert!(case.get(4).is_err());
}

#[test]
fn empty_sequence_has_no_units() {
    let case = PackedDna::from_str("").unwrap();
    assert!(case.len() == 0);
    assert!(case.vec().is_empty());
    assert!(case.get(0).is_err());
}

#[test]
fn is_empty_polarity() {
    // is_empty holds exactly for a zero-length sequence
    assert!(PackedDna::from_str("").unwrap().is_empty());
    assert!(!PackedDna::from_str("A").unwrap().is_empty());
    assert!(!PackedDna::from_str("ATGCGGCTA").unwrap().is_empty());
}

#[test]
fn case_invariance_concrete() {
    // a text and its upper-cased form pack identically
    let lower = PackedDna::from_str("acgtacgta").unwrap();
    let upper = PackedDna::from_str("ACGTACGTA").unwrap();
    assert!(lower.vec() == upper.vec());
    assert!(lower.len() == upper.len());
}

#[test]
fn round_trip_concrete() {
    // decoding every index gives the text back, upper-cased
    let text = "aTcGgAcT";
    let case = PackedDna::from_str(text).unwrap();
    let mut decoded = String::new();
    for i in 0..case.len() {
        decoded.push(match case.get(i).unwrap() {
            Nuc::A => 'A',
            Nuc::C => 'C',
            Nuc::G => 'G',
            Nuc::T => 'T',
        });
    }
    assert!(decoded == "ATCGGACT");
}

#[test]
fn error_payloads() {
    // the parse error names the first offending character
    match PackedDna::from_str("ABCg") {
        Err(e) => assert!(e.0 == 'B'),
        Ok(_) => panic!("expected a parse failure"),
    }
    match PackedDna::from_str("atcgX") {
        Err(e) => assert!(e.0 == 'X'),
        Ok(_) => panic!("expected a parse failure"),
    }

    // the character and text parse errors carry the input
    let err = Nuc::try_from('q').unwrap_err();
    assert!(err.0 == 'q');
    let err = Nuc::from_str("AT").unwrap_err();
    assert!(err.0 == "AT");

    // the access error carries the requested index
    let case = PackedDna::from_str("ATCG").unwrap();
    let err = case.get(7).unwrap_err();
    assert!(err.0 == 7);
}

#[test]
fn fromiter_multi_unit() {
    // nine nucleotides: two full units and a trailing unit of one
    let v = vec![
        Nuc::A,
        Nuc::T,
        Nuc::G,
        Nuc::C,
        Nuc::G,
        Nuc::G,
        Nuc::C,
        Nuc::T,
        Nuc::A,
    ];
    let case = PackedDna::from_iter(v.clone());
    assert!(case.len() == 9);
    for (i, n) in v.iter().enumerate() {
        assert!(case.get(i).unwrap() == *n);
    }
    // the packed form equals that of the same text
    let parsed = PackedDna::from_str("ATGCGGCTA").unwrap();
    assert!(case.vec() == parsed.vec());
}
