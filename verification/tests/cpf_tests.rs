use cpf2svl::columns::{decode_cols, ColSpec, FieldValue};
use cpf2svl::error::Error;
use cpf2svl::parser::CPFParser;
use cpf2svl::serialize::SvlWriter;
use cpf2svl::types::{
    ApproxParams, Atom, CheckPointFile, DimerData, Dimers, Monomers, SplittedBond, SystemEnergy,
    Vec3,
};

fn pad_left(s: &str, w: usize) -> String {
    let mut r = String::new();
    for _ in s.len()..w {
        r.push(' ');
    }
    r.push_str(s);
    r
}

fn bits(s: &[u8]) -> u64 {
    std::str::from_utf8(s).unwrap().parse::<f64>().unwrap().to_bits()
}

fn vec3_bits(v: &Vec3<Vec<u8>>) -> Vec3<u64> {
    Vec3 { x: bits(&v.x), y: bits(&v.y), z: bits(&v.z) }
}

fn to_bits_model(t: &CheckPointFile<Vec<u8>>) -> CheckPointFile<u64> {
    CheckPointFile {
        version: t.version.clone(),
        comments: t.comments.clone(),
        num_atoms: t.num_atoms,
        num_frags: t.num_frags,
        atoms: t
            .atoms
            .iter()
            .map(|a| Atom {
                index: a.index,
                element: a.element.clone(),
                atom_type: a.atom_type.clone(),
                res_name: a.res_name.clone(),
                res_index: a.res_index,
                frag_index: a.frag_index,
                x: bits(&a.x),
                y: bits(&a.y),
                z: bits(&a.z),
                hf_mulliken: bits(&a.hf_mulliken),
                mp2_mulliken: bits(&a.mp2_mulliken),
                hf_nbo: bits(&a.hf_nbo),
                mp2_nbo: bits(&a.mp2_nbo),
                hf_esp: bits(&a.hf_esp),
                mp2_esp: bits(&a.mp2_esp),
            })
            .collect(),
        monomers: Monomers {
            atom_indices: t.monomers.atom_indices.clone(),
            num_electrons: t.monomers.num_electrons.clone(),
            num_attached: t.monomers.num_attached.clone(),
            hf_dipoles: t.monomers.hf_dipoles.iter().map(vec3_bits).collect(),
            mp2_dipoles: t.monomers.mp2_dipoles.iter().map(vec3_bits).collect(),
            nuclear_repulsion: t.monomers.nuclear_repulsion.iter().map(|v| bits(v)).collect(),
            electronic: t.monomers.electronic.iter().map(|v| bits(v)).collect(),
            mp2: t.monomers.mp2.iter().map(|v| bits(v)).collect(),
            mp3: t.monomers.mp3.iter().map(|v| bits(v)).collect(),
            ao: t.monomers.ao.clone(),
            mo: t.monomers.mo.clone(),
        },
        splitted_bonds: t.splitted_bonds.clone(),
        dimers: Dimers {
            distances: conv_channel(&t.dimers.distances),
            nuclear_repulsion: conv_channel(&t.dimers.nuclear_repulsion),
            electronic: conv_channel(&t.dimers.electronic),
            electrostatic: conv_channel(&t.dimers.electrostatic),
            mp2: conv_channel(&t.dimers.mp2),
            scs_mp2: conv_channel(&t.dimers.scs_mp2),
            mp3: conv_channel(&t.dimers.mp3),
            scs_mp3: conv_channel(&t.dimers.scs_mp3),
            hf_bsse: conv_channel(&t.dimers.hf_bsse),
            mp2_bsse: conv_channel(&t.dimers.mp2_bsse),
            scs_mp2_bsse: conv_channel(&t.dimers.scs_mp2_bsse),
            mp3_bsse: conv_channel(&t.dimers.mp3_bsse),
            scs_mp3_bsse: conv_channel(&t.dimers.scs_mp3_bsse),
            exchange_repulsion: conv_channel(&t.dimers.exchange_repulsion),
            charge_transfer: conv_channel(&t.dimers.charge_transfer),
            qij: conv_channel(&t.dimers.qij),
        },
        level: t.level.clone(),
        electronic_state: t.electronic_state.clone(),
        basisset: t.basisset.clone(),
        approx_params: ApproxParams {
            ao_population: bits(&t.approx_params.ao_population),
            point_charge: bits(&t.approx_params.point_charge),
            dimer_es: bits(&t.approx_params.dimer_es),
        },
        system_energy: SystemEnergy {
            nuclear_repulsion: bits(&t.system_energy.nuclear_repulsion),
            electronic: bits(&t.system_energy.electronic),
            total: bits(&t.system_energy.total),
        },
    }
}

fn conv_channel(d: &DimerData<Vec<u8>>) -> DimerData<u64> {
    DimerData { data: d.data.iter().map(|v| bits(v)).collect() }
}

fn atom_line(
    index: i32,
    element: &str,
    atom_type: &str,
    res_name: &str,
    res_index: i32,
    frag_index: i32,
    floats: [&str; 9],
) -> String {
    let mut l = String::new();
    l.push_str(&pad_left(&index.to_string(), 5));
    l.push(' ');
    l.push_str(&format!("{:<2}", element));
    l.push(' ');
    l.push_str(&format!("{:<4}", atom_type));
    l.push(' ');
    l.push_str(&format!("{:<3}", res_name));
    l.push(' ');
    l.push_str(&pad_left(&res_index.to_string(), 4));
    l.push(' ');
    l.push_str(&pad_left(&frag_index.to_string(), 4));
    l.push(' ');
    for f in floats.iter() {
        l.push_str(&pad_left(f, 12));
    }
    l
}

fn minimal_cpf_with_frag(frag: i32) -> String {
    let mut lines: Vec<String> = Vec::new();
    lines.push("ABCDEFGHV1.0 test file".to_string());
    lines.push(format!("{}{}", pad_left("1", 5), pad_left("1", 5)));
    lines.push(atom_line(
        1,
        "C",
        "CA",
        "ALA",
        1,
        frag,
        ["1.5", "-2.25", "0.125", "0.1", "0.2", "0.3", "0.4", "0.5", "0.6"],
    ));
    lines.push(pad_left("2", 5));
    lines.push(pad_left("0", 5));
    lines.push("0.1 0.2 0.3 0.4 0.5 0.6".to_string());
    lines.push("MP2".to_string());
    lines.push("1A".to_string());
    lines.push("6-31G".to_string());
    lines.push("0.1 0.2 0.3".to_string());
    lines.push("1.5".to_string());
    lines.push("-2.5".to_string());
    lines.push("3.5".to_string());
    lines.push(format!(
        "{}{}{}{}{}{}",
        pad_left("1.0", 24),
        pad_left("2.0", 24),
        pad_left("3.0", 24),
        pad_left("4.0", 24),
        pad_left("5", 12),
        pad_left("9", 12)
    ));
    let mut s = lines.join("\n");
    s.push('\n');
    s
}

fn minimal_cpf() -> String {
    minimal_cpf_with_frag(1)
}

#[test]
fn test_write_float() {
    let mut d = SvlWriter::new();
    d.write_float(&[1f64.to_bits()]);
    assert_eq!(d.buf, &[3, 0, 0, 0, 1, 63, 240, 0, 0, 0, 0, 0, 0]);

    let mut d = SvlWriter::new();
    d.write_float(&[1f64.to_bits(), 2f64.to_bits()]);
    assert_eq!(
        d.buf,
        &[3, 0, 0, 0, 2, 63, 240, 0, 0, 0, 0, 0, 0, 64, 0, 0, 0, 0, 0, 0, 0]
    );
}

#[test]
fn test_write_token() {
    let mut d = SvlWriter::new();
    d.write_token(&[&b"foo"[..], &b"bar"[..]]);
    assert_eq!(
        d.buf,
        &[4, 0, 0, 0, 2, 0, 0, 0, 3, 102, 111, 111, 0, 0, 0, 3, 98, 97, 114]
    );
}

#[test]
fn test_write_int_negative() {
    let mut d = SvlWriter::new();
    d.write_int(&[-1, 2]);
    assert_eq!(
        d.buf,
        &[2, 0, 0, 0, 2, 255, 255, 255, 255, 0, 0, 0, 2]
    );
}

#[test]
fn test_header_parsing() {
    let line = b"12345678V1.0 sample comment".to_vec();
    let mut p = CPFParser::new(vec![line]);
    let (version, comments) = p.parse_version().unwrap();
    assert_eq!(version, b"V1.0".to_vec());
    assert_eq!(comments, b"sample comment".to_vec());
}

#[test]
fn test_packed_list_two_lines_for_twenty() {
    let mut first = String::new();
    for i in 0..16 {
        first.push_str(&pad_left(&i.to_string(), 5));
    }
    let mut second = String::new();
    for i in 16..20 {
        second.push_str(&pad_left(&i.to_string(), 5));
    }
    let mut p = CPFParser::new(vec![first.into_bytes(), second.into_bytes()]);
    let vals = p.parse_size16(20).unwrap();
    let expected: Vec<i32> = (0..20).collect();
    assert_eq!(vals, expected);
}

#[test]
fn test_packed_list_consumes_trailing_line_on_multiple_of_16() {
    let mut first = String::new();
    for i in 0..16 {
        first.push_str(&pad_left(&i.to_string(), 5));
    }
    // A full block of 16 still reads one further (empty) remainder line.
    let mut p = CPFParser::new(vec![first.clone().into_bytes()]);
    assert!(matches!(p.parse_size16(16), Err(Error::UnexpectedEnd)));

    let mut p = CPFParser::new(vec![first.into_bytes(), Vec::new()]);
    let vals = p.parse_size16(16).unwrap();
    let expected: Vec<i32> = (0..16).collect();
    assert_eq!(vals, expected);
}

#[test]
fn test_malformed_integer_field() {
    let mut text = minimal_cpf();
    // Corrupt the counts line: a non-digit in the first width-5 column.
    text = text.replace("    1    1", "   xy    1");
    let r = CheckPointFile::parse(text.as_bytes());
    assert!(matches!(r, Err(Error::ParseInt)));
}

#[test]
fn test_malformed_float_field() {
    let text = minimal_cpf().replace("1.5\n", "1.5.5\n");
    let r = CheckPointFile::parse(text.as_bytes());
    assert!(matches!(r, Err(Error::ParseFloat)));
}

#[test]
fn test_bad_dipole_line() {
    let text = minimal_cpf().replace("0.1 0.2 0.3 0.4 0.5 0.6", "0.1 0.2 0.3 0.4 0.5");
    let r = CheckPointFile::parse(text.as_bytes());
    match r {
        Err(Error::InvalidFormat(label)) => assert_eq!(label, "dipole"),
        other => panic!("expected a dipole format error, got {:?}", other.map(|_| ())),
    }
}

#[test]
fn test_bad_approx_line() {
    let text = minimal_cpf().replace("0.1 0.2 0.3\n1.5", "0.1 0.2\n1.5");
    let r = CheckPointFile::parse(text.as_bytes());
    match r {
        Err(Error::InvalidFormat(label)) => assert_eq!(label, "approx"),
        other => panic!("expected an approx format error, got {:?}", other.map(|_| ())),
    }
}

#[test]
fn test_truncated_input() {
    let text = minimal_cpf();
    // Drop the whole last line: the monomer energy block is missing.
    let cut_at = text.trim_end().rfind('\n').unwrap() + 1;
    let r = CheckPointFile::parse(text[..cut_at].as_bytes());
    assert!(matches!(r, Err(Error::UnexpectedEnd)));
}

#[test]
fn test_fragment_index_out_of_range() {
    // frag_index 2 with only 1 fragment declared.
    let text = minimal_cpf_with_frag(2);
    let r = CheckPointFile::parse(text.as_bytes());
    match r {
        Err(Error::InvalidFormat(label)) => assert_eq!(label, "fragment"),
        other => panic!("expected a fragment error, got {:?}", other.map(|_| ())),
    }
}

#[test]
fn test_parse_minimal_model() {
    let text = minimal_cpf();
    let cpf = CheckPointFile::parse(text.as_bytes()).unwrap();
    assert_eq!(cpf.version, b"V1.0".to_vec());
    assert_eq!(cpf.comments, b"test file".to_vec());
    assert_eq!(cpf.num_atoms, 1);
    assert_eq!(cpf.num_frags, 1);
    assert_eq!(cpf.atoms.len(), 1);
    let a = &cpf.atoms[0];
    assert_eq!(a.index, 1);
    assert_eq!(a.element, b"C ".to_vec());
    assert_eq!(a.atom_type, b"CA  ".to_vec());
    assert_eq!(a.res_name, b"ALA".to_vec());
    assert_eq!(a.res_index, 1);
    assert_eq!(a.frag_index, 1);
    assert_eq!(a.x, b"1.5".to_vec());
    assert_eq!(a.y, b"-2.25".to_vec());
    assert_eq!(a.z, b"0.125".to_vec());
    assert_eq!(cpf.monomers.atom_indices, vec![vec![0]]);
    assert_eq!(cpf.monomers.num_electrons, vec![2]);
    assert_eq!(cpf.monomers.num_attached, vec![0]);
    assert_eq!(cpf.monomers.hf_dipoles.len(), 1);
    assert_eq!(cpf.monomers.hf_dipoles[0].x, b"0.1".to_vec());
    assert_eq!(cpf.monomers.mp2_dipoles[0].z, b"0.6".to_vec());
    assert_eq!(cpf.monomers.ao, vec![5]);
    assert_eq!(cpf.monomers.mo, vec![9]);
    assert_eq!(cpf.splitted_bonds.len(), 0);
    assert_eq!(cpf.dimers.distances.data.len(), 0);
    assert_eq!(cpf.level, b"MP2".to_vec());
    assert_eq!(cpf.electronic_state, b"1A".to_vec());
    assert_eq!(cpf.basisset, b"6-31G".to_vec());
    assert_eq!(cpf.approx_params.dimer_es, b"0.3".to_vec());
    assert_eq!(cpf.system_energy.nuclear_repulsion, b"1.5".to_vec());
    assert_eq!(cpf.system_energy.electronic, b"-2.5".to_vec());
    assert_eq!(cpf.system_energy.total, b"3.5".to_vec());
}

#[test]
fn test_fragment_membership_two_fragments() {
    // Three atoms over two fragments: membership follows frag_index,
    // positions ascending, atom lists re-offset to 1-based on encode.
    let mut lines: Vec<String> = Vec::new();
    lines.push("ABCDEFGHV1.0 two frags".to_string());
    lines.push(format!("{}{}", pad_left("3", 5), pad_left("2", 5)));
    let f = ["1.0", "1.0", "1.0", "1.0", "1.0", "1.0", "1.0", "1.0", "1.0"];
    lines.push(atom_line(1, "C", "CA", "ALA", 1, 2, f));
    lines.push(atom_line(2, "N", "N", "GLY", 2, 1, f));
    lines.push(atom_line(3, "O", "O", "GLY", 2, 2, f));
    lines.push(format!("{}{}", pad_left("2", 5), pad_left("4", 5)));
    lines.push(format!("{}{}", pad_left("1", 5), pad_left("1", 5)));
    lines.push(format!("{}{}", pad_left("1", 5), pad_left("2", 5)));
    lines.push(format!("{}{}", pad_left("2", 5), pad_left("1", 5)));
    lines.push("1 2 4.25".to_string());
    lines.push("0.1 0.2 0.3 0.4 0.5 0.6".to_string());
    lines.push("0.1 0.2 0.3 0.4 0.5 0.6".to_string());
    lines.push("MP2".to_string());
    lines.push("1A".to_string());
    lines.push("6-31G".to_string());
    lines.push("0.1 0.2 0.3".to_string());
    lines.push("1.5".to_string());
    lines.push("-2.5".to_string());
    lines.push("3.5".to_string());
    let mono = format!(
        "{}{}{}{}{}{}",
        pad_left("1.0", 24),
        pad_left("2.0", 24),
        pad_left("3.0", 24),
        pad_left("4.0", 24),
        pad_left("5", 12),
        pad_left("9", 12)
    );
    lines.push(mono.clone());
    lines.push(mono);
    let mut dimer = String::new();
    for _ in 0..15 {
        dimer.push_str(&pad_left("0.5", 24));
    }
    lines.push(dimer);
    let mut text = lines.join("\n");
    text.push('\n');

    let cpf = CheckPointFile::parse(text.as_bytes()).unwrap();
    assert_eq!(cpf.monomers.atom_indices, vec![vec![1], vec![0, 2]]);
    assert_eq!(
        cpf.splitted_bonds,
        vec![SplittedBond { bda: 1, baa: 2 }, SplittedBond { bda: 2, baa: 1 }]
    );
    assert_eq!(cpf.dimers.distances.data, vec![b"4.25".to_vec()]);
    assert_eq!(cpf.dimers.qij.data, vec![b"0.5".to_vec()]);

    // Round through the encoder and check the fragment lists come out
    // 1-based: fragment 1 holds atom 2, fragment 2 holds atoms 1 and 3.
    let bits_model = to_bits_model(&cpf);
    let mut w = SvlWriter::new();
    bits_model.serialize(&mut w);
    let needle1: &[u8] = &[2, 0, 0, 0, 1, 0, 0, 0, 2];
    let needle2: &[u8] = &[2, 0, 0, 0, 2, 0, 0, 0, 1, 0, 0, 0, 3];
    let hay = w.buf.as_slice();
    let pos1 = hay.windows(needle1.len()).position(|w| w == needle1);
    let pos2 = hay.windows(needle2.len()).position(|w| w == needle2);
    assert!(pos1.is_some() && pos2.is_some());
}

#[test]
fn test_encode_minimal_prefix() {
    let cpf = CheckPointFile::parse(minimal_cpf().as_bytes()).unwrap();
    let bits_model = to_bits_model(&cpf);
    let mut w = SvlWriter::new();
    bits_model.serialize(&mut w);
    let mut expected: Vec<u8> = Vec::new();
    // version: token array of one string "V1.0"
    expected.extend_from_slice(&[4, 0, 0, 0, 1, 0, 0, 0, 4]);
    expected.extend_from_slice(b"V1.0");
    // comments: "test file"
    expected.extend_from_slice(&[4, 0, 0, 0, 1, 0, 0, 0, 9]);
    expected.extend_from_slice(b"test file");
    // num_atoms, num_frags
    expected.extend_from_slice(&[2, 0, 0, 0, 1, 0, 0, 0, 1]);
    expected.extend_from_slice(&[2, 0, 0, 0, 1, 0, 0, 0, 1]);
    // atoms group of 1, atom group of 15, index array
    expected.extend_from_slice(&[5, 0, 0, 0, 1]);
    expected.extend_from_slice(&[5, 0, 0, 0, 15]);
    expected.extend_from_slice(&[2, 0, 0, 0, 1, 0, 0, 0, 1]);
    assert_eq!(&w.buf[..expected.len()], expected.as_slice());
}

#[test]
fn test_encode_is_deterministic() {
    let cpf = CheckPointFile::parse(minimal_cpf().as_bytes()).unwrap();
    let bits_model = to_bits_model(&cpf);
    let mut w1 = SvlWriter::new();
    bits_model.serialize(&mut w1);
    let cpf2 = CheckPointFile::parse(minimal_cpf().as_bytes()).unwrap();
    let bits_model2 = to_bits_model(&cpf2);
    let mut w2 = SvlWriter::new();
    bits_model2.serialize(&mut w2);
    assert_eq!(w1.buf, w2.buf);
}

#[test]
fn test_empty_input() {
    let r = CheckPointFile::parse(b"");
    assert!(matches!(r, Err(Error::UnexpectedEnd)));
}

#[test]
fn test_column_decoder_kinds() {
    let line = b"XX  ab C  12  3.5";
    let cols = [
        ColSpec::Skip(2),
        ColSpec::TrimmedString(4),
        ColSpec::RawString(3),
        ColSpec::Int32(3),
        ColSpec::Float64(5),
    ];
    let fields = decode_cols(line, &cols).unwrap();
    assert_eq!(fields.len(), 4);
    assert!(matches!(&fields[0], FieldValue::Str(s) if s == b"ab"));
    assert!(matches!(&fields[1], FieldValue::Str(s) if s == b" C "));
    assert!(matches!(&fields[2], FieldValue::Int(12)));
    assert!(matches!(&fields[3], FieldValue::Float(t) if t == b"3.5"));

    let short = b"XX  ab C  12";
    let r = decode_cols(short, &cols);
    assert!(matches!(r, Err(Error::ParseFloat)));
}

#[test]
fn test_float_grammar_edges() {
    // The scalar-energy line takes exactly the literals the standard
    // float parser accepts.
    for good in [".5", "5.", "+1e10", "-2.5E-3", "inf", "-Infinity", "NaN"] {
        let text = minimal_cpf().replace("\n1.5\n", &format!("\n{}\n", good));
        assert!(
            CheckPointFile::parse(text.as_bytes()).is_ok(),
            "rejected valid float literal {:?}",
            good
        );
    }
    for bad in ["", ".", "1e", "1.2.3", "0x1", "1,5", "in", "nanx"] {
        let text = minimal_cpf().replace("\n1.5\n", &format!("\n{}\n", bad));
        assert!(
            matches!(CheckPointFile::parse(text.as_bytes()), Err(Error::ParseFloat)),
            "accepted invalid float literal {:?}",
            bad
        );
    }
}
