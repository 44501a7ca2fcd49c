use fds_tbx::formats::smv::err::{KeyType, SectionName, SmvError, SubSectionName};
use fds_tbx::formats::smv::lex::{read_eol, read_float, read_i32, read_tag, skip_space, Span};
use fds_tbx::formats::smv::mesh::read_text_line;
use fds_tbx::formats::smv::model::{Smoke3DType, Smv};

fn txt(file: &str, sp: Span) -> String {
    file.chars().skip(sp.start).take(sp.end - sp.start).collect()
}

fn chars(s: &str) -> Vec<char> {
    s.chars().collect()
}

const DEMO: &str = "TITLE
 Demo house

VERSION
 FDS6.7.4

ENDF
 Demo_ends.csv

INPF
 Demo.fds

REVISION
 FDS6.7.4-0-gfe0d4ef38-release

CHID
 DemoHaus2

SOLID_HT3D
 0

CSVF
 hrr
 Demo_hrr.csv

NMESHES
     1

HRRPUVCUT
     1
     66.66667

VIEWTIMES
     0.00    600.00     1000

ALBEDO
  0.30000

IBLANK
  1

GVEC
   0.00000   0.00000  -9.81000

SURFDEF
INERT

SURFACE
INERT
     5000.00000     0.00000
     0   1.00000   1.00000 0.80000 0.80000 0.80000   1.00000
null

MATERIAL
CONCRETE
 0.78 0.78 0.78

OUTLINE
     1
  0.00  1.00  0.00  1.00  0.00  1.00

TOFFSET
   0.00000   0.00000   0.00000

RAMP
     1
 RAMP: Burner_RAMP_Q
     2
  0.0000      0.0000
  300.00      1.0000

PROP
 Default
     1
 sensor
     0

DEVICE
 T_B01 % TEMPERATURE
  1.00 2.00 3.00 0.00 0.00 -1.00 0 0 % null

OFFSET
  0.00 0.00 0.00
GRID  Mesh01
     2     1     1     0

PDIM
  0.00  1.00  0.00  1.00  0.00  1.00  0.20 0.20 0.20

TRNX
     0
     0       0.00000
     1       0.50000
     2       1.00000

TRNY
     0
     0       0.00000
     1       1.00000

TRNZ
     0
     0       0.00000
     1       1.00000

OBST
     1
  0.00 0.50 0.00 1.00 0.00 1.00 1 1 1 1 1 1 1 0.0 0.0 0.0 ! Wall
     0 1 0 1 0 1 -1 0

VENT
     1     0
  0.00 0.00 0.00 1.00 0.00 1.00 1 0 0.0 0.0 0.0
     0 0 0 1 0 1 99 0

CVENT
     0

FOO
 bar
XYZ
 Demo_1.xyz

SLCF     1 # STRUCTURED & 0 1 0 1 0 0
 Demo_1_1.sf
 TEMPERATURE
 temp
 C

SMOKF3D     1   8700.0
 Demo_1_1.s3d
 SOOT DENSITY
 rho_C
 mg/m3

DEVICE_ACT T_B01
 1 0.5 1
";

#[test]
fn smv_parses_demo() {
    let (r, warnings) = Smv::parse_with_warn(DEMO);
    let smv = r.unwrap();
    assert_eq!(txt(DEMO, smv.title), "Demo house");
    assert_eq!(txt(DEMO, smv.fds_version.0), "FDS6.7.4");
    assert!(smv.fds_version.1.is_none());
    assert_eq!(txt(DEMO, smv.chid), "DemoHaus2");
    assert_eq!(smv.solid_ht3d, Some(0));
    assert_eq!(txt(DEMO, smv.hrrpuv_cutoff), "66.66667");
    assert_eq!(txt(DEMO, smv.viewtimes.time_end), "600.00");
    assert_eq!(smv.viewtimes.num_frames, 1000);
    assert!(smv.i_blank);
    assert_eq!(txt(DEMO, smv.gravity_vec.z), "-9.81000");
    assert_eq!(smv.surfaces.len(), 1);
    assert!(smv.surfaces[0].texture.is_none());
    assert_eq!(txt(DEMO, smv.surfaces[0].id), "INERT");
    assert_eq!(smv.materials.len(), 1);
    assert_eq!(smv.outlines.len(), 1);
    assert_eq!(smv.ramps.len(), 1);
    assert_eq!(txt(DEMO, smv.ramps[0].name), "Burner_RAMP_Q");
    assert_eq!(smv.ramps[0].values.len(), 2);
    assert_eq!(txt(DEMO, smv.ramps[0].values[1].independent), "300.00");
    assert_eq!(smv.properties.len(), 1);
    assert_eq!(smv.properties[0].smv_ids.len(), 1);
    assert_eq!(smv.properties[0].smv_props.len(), 0);
    assert_eq!(smv.devices.len(), 1);
    assert_eq!(txt(DEMO, smv.devices[0].id), "T_B01");
    assert_eq!(txt(DEMO, smv.devices[0].quantity), "TEMPERATURE");
    assert_eq!(smv.devices[0].activations.len(), 1);
    assert_eq!(smv.devices[0].activations[0].c, 1);
    assert_eq!(smv.meshes.len(), 1);
    let m = &smv.meshes[0];
    assert_eq!(txt(DEMO, m.name), "Mesh01");
    assert_eq!(m.dimensions.x, 2);
    assert_eq!(m.trn.x.len(), 3);
    assert_eq!(txt(DEMO, m.trn.x[1]), "0.50000");
    assert_eq!(m.trn.y.len(), 2);
    assert_eq!(m.obsts.len(), 1);
    assert_eq!(m.obsts[0].id, 1);
    assert!(!m.obsts[0].is_hole);
    assert_eq!(txt(DEMO, m.obsts[0].name.unwrap()), "Wall");
    assert_eq!(m.obsts[0].color_index, -1);
    assert_eq!(m.vents.len(), 1);
    assert!(m.vents[0].texture_origin.is_some());
    assert_eq!(m.vents[0].color_index, 99);
    assert_eq!(m.circular_vents.len(), 0);
    assert_eq!(smv.xyz_files.len(), 1);
    assert_eq!(smv.slices.len(), 1);
    assert!(!smv.slices[0].cell_centered);
    assert_eq!(txt(DEMO, smv.slices[0].slice_type), "STRUCTURED");
    assert_eq!(smv.slices[0].bounds.max.y, 1);
    assert_eq!(smv.smoke3d.len(), 1);
    assert_eq!(smv.smoke3d[0].smoke_type, Smoke3DType::F);
    assert_eq!(txt(DEMO, smv.smoke3d[0].mass_extinction_coefficient.unwrap()), "8700.0");
    assert_eq!(txt(DEMO, smv.smoke3d[0].quantity.unit), "mg/m3");
    assert_eq!(warnings.len(), 1);
    match warnings[0] {
        SmvError::UnknownSection { section } => assert_eq!(txt(DEMO, section), "FOO"),
        _ => panic!("expected an unknown section"),
    }
}

#[test]
fn smv_missing_nmeshes() {
    let file = DEMO.replace("NMESHES\n     1\n", "");
    assert_eq!(
        Smv::parse(&file).unwrap_err(),
        SmvError::MissingSection { name: SectionName::NMeshes }
    );
}

#[test]
fn smv_wrong_number_of_meshes() {
    let file = DEMO.replace("NMESHES\n     1\n", "NMESHES\n     2\n");
    assert_eq!(
        Smv::parse(&file).unwrap_err(),
        SmvError::WrongNumberOfMeshes { expected: 2, found: 1 }
    );
}

#[test]
fn smv_missing_title() {
    let file = DEMO.replace("TITLE\n Demo house\n", "");
    assert_eq!(
        Smv::parse(&file).unwrap_err(),
        SmvError::MissingSection { name: SectionName::Title }
    );
}

#[test]
fn smv_viewtimes_must_start_at_zero() {
    let file = DEMO.replace("     0.00    600.00", "     1.00    600.00");
    match Smv::parse(&file).unwrap_err() {
        SmvError::InvalidFloatConstant { span } => assert_eq!(txt(&file, span), "1.00"),
        e => panic!("unexpected {:?}", e),
    }
}

#[test]
fn smv_heat_of_combustion_needs_one() {
    let file = format!("{}HoC\n 2\n 5.0\n", DEMO);
    match Smv::parse(&file).unwrap_err() {
        SmvError::InvalidIntConstant { span, expected } => {
            assert_eq!(expected, 1);
            assert_eq!(txt(&file, span), "2");
        }
        e => panic!("unexpected {:?}", e),
    }
}

#[test]
fn smv_heat_of_combustion() {
    let file = format!("{}HoC\n 1\n 5.0\n", DEMO);
    let smv = Smv::parse(&file).unwrap();
    assert_eq!(txt(&file, smv.heat_of_combustion.unwrap()), "5.0");
}

#[test]
fn smv_device_act_of_unknown_device() {
    let file = DEMO.replace("DEVICE_ACT T_B01", "DEVICE_ACT T_B99");
    match Smv::parse(&file).unwrap_err() {
        SmvError::InvalidKey { key, key_type } => {
            assert_eq!(key_type, KeyType::DeviceAct);
            assert_eq!(txt(&file, key), "T_B99");
        }
        e => panic!("unexpected {:?}", e),
    }
}

#[test]
fn smv_mesh_needs_toffset() {
    let file = DEMO.replace("TOFFSET\n   0.00000   0.00000   0.00000\n", "");
    assert_eq!(
        Smv::parse(&file).unwrap_err(),
        SmvError::MissingSection { name: SectionName::TOffset }
    );
}

#[test]
fn smv_missing_subsection() {
    let file = DEMO.replace("PDIM\n", "PDIX\n");
    match Smv::parse(&file).unwrap_err() {
        SmvError::MissingSubSection { parent, name, found } => {
            assert_eq!(txt(&file, parent), "Mesh01");
            assert_eq!(name, SubSectionName::Pdim);
            assert_eq!(txt(&file, found.unwrap()), "PDIX");
        }
        e => panic!("unexpected {:?}", e),
    }
}

#[test]
fn smv_suspicious_index() {
    let file = DEMO.replace("     1       0.50000", "     5       0.50000");
    match Smv::parse(&file).unwrap_err() {
        SmvError::SuspiciousIndex { inside_subsection, index, expected } => {
            assert_eq!(txt(&file, inside_subsection), "TRNX");
            assert_eq!(txt(&file, index), "5");
            assert_eq!(expected, 1);
        }
        e => panic!("unexpected {:?}", e),
    }
}

#[test]
fn smv_obst_color() {
    let file = DEMO.replace("     0 1 0 1 0 1 -1 0", "     0 1 0 1 0 1 -3 0");
    match Smv::parse(&file).unwrap_err() {
        SmvError::InvalidObstColor { color_index, color } => {
            assert_eq!(txt(&file, color_index), "-3");
            assert!(color.is_none());
        }
        e => panic!("unexpected {:?}", e),
    }
}

#[test]
fn smv_vent_texture_origin() {
    let file = DEMO.replace("1 0 0.0 0.0 0.0\n", "1 0\n");
    match Smv::parse(&file).unwrap_err() {
        SmvError::VentTextureOrigin { num_vents_total, num_non_dummies, vent_line_number, texture_origin, .. } => {
            assert_eq!(num_vents_total, 1);
            assert_eq!(num_non_dummies, 1);
            assert_eq!(vent_line_number, 0);
            assert!(texture_origin.is_none());
        }
        e => panic!("unexpected {:?}", e),
    }
}

#[test]
fn smv_syntax_error_location() {
    let file = DEMO.replace("ALBEDO\n  0.30000", "ALBEDO\n  zero");
    match Smv::parse(&file).unwrap_err() {
        SmvError::Syntax { location } => assert_eq!(txt(&file, location), "zero"),
        e => panic!("unexpected {:?}", e),
    }
}

#[test]
fn smv_obst_id_zero_is_a_syntax_error() {
    let file = DEMO.replace("1 1 1 1 1 1 1 0.0 0.0 0.0 ! Wall", "0 1 1 1 1 1 1 0.0 0.0 0.0 ! Wall");
    assert!(matches!(Smv::parse(&file).unwrap_err(), SmvError::Syntax { .. }));
}

#[test]
fn smv_skipped_section_at_end() {
    let (r, warnings) = Smv::parse_with_warn("FOO");
    assert!(matches!(r.unwrap_err(), SmvError::UnexpectedEndOfInput { .. }));
    assert!(warnings.is_empty());
}

#[test]
fn smv_two_line_version() {
    let file = DEMO.replace("VERSION\n FDS6.7.4\n", "VERSION\n FDS6.7.4\n second\n");
    let smv = Smv::parse(&file).unwrap();
    assert_eq!(txt(&file, smv.fds_version.1.unwrap()), "second");
}

#[test]
fn test_parse() {
    let input = chars("lorem ipsum");
    let q = read_tag(&input, 0, "lorem").unwrap();
    assert_eq!(input[q..].iter().collect::<String>(), " ipsum");
}

#[test]
fn test_line() {
    let text = "lorem ipsum\nsit amet\r\ndolor";
    let input = chars(text);
    let start = skip_space(&input, 0);
    let q = read_tag(&input, start, "lorem ipsum").unwrap();
    assert_eq!(input[start..q].iter().collect::<String>(), "lorem ipsum");
    let q = read_eol(&input, q).unwrap();
    let (line, q) = read_text_line(&input, q).unwrap();
    assert_eq!(txt(text, line), "sit amet");
    assert_eq!(input[q..].iter().collect::<String>(), "dolor");
}

#[test]
fn ws_separated() {
    let text = "lorem 1 ipsum 5.3";
    let input = chars(text);
    let q = read_tag(&input, skip_space(&input, 0), "lorem").unwrap();
    let (one, t) = read_i32(&input, skip_space(&input, q)).unwrap();
    let q = read_tag(&input, skip_space(&input, t.end), "ipsum").unwrap();
    let f = read_float(&input, skip_space(&input, q)).unwrap();
    assert_eq!(one, 1);
    assert_eq!(txt(text, f).parse::<f32>().unwrap(), 5.3);
}

#[test]
fn smv_skipping_stops_at_an_upper_case_line() {
    // The line after an unknown section is its own; lines are then skipped up to the first
    // one of upper-case letters only, so a section whose word is followed by values on its
    // line is skipped along.
    let file = DEMO.replace("FOO\n bar\nXYZ\n Demo_1.xyz\n", "FOO\n bar\nXYZ 1\n Demo_1.xyz\n");
    let (r, warnings) = Smv::parse_with_warn(&file);
    let smv = r.unwrap();
    assert_eq!(warnings.len(), 1);
    assert_eq!(smv.xyz_files.len(), 0);
    assert_eq!(smv.slices.len(), 1);
}


#[test]
fn smv_warnings_only_for_unknown_words() {
    let words = |file: &str| -> Vec<String> {
        let (r, warnings) = Smv::parse_with_warn(file);
        assert!(r.is_ok());
        warnings
            .iter()
            .map(|w| match w {
                SmvError::UnknownSection { section } => txt(file, *section),
                e => panic!("unexpected {:?}", e),
            })
            .collect()
    };
    assert_eq!(words(DEMO), ["FOO"]);
    assert_eq!(words(&DEMO.replacen("VERSION\n", "FACE\n 1 2 3\nBAR\n x\nVERSION\n", 1)), ["BAR", "FOO"]);
    assert_eq!(words(&DEMO.replacen("VERSION\n", "PRT5 1\n data\nVERSION\n", 1)), ["FOO"]);
    assert_eq!(words(&DEMO.replacen("VERSION\n", "BNDX 1\n data\nVERSION\n", 1)), ["BNDX", "FOO"]);
}

#[test]
fn smv_byte_span_of_non_ascii_text() {
    let file = "TITLE\n Bürohaus ÄÖ\n";
    let sp = Span { start: 7, end: 15 };
    assert_eq!(txt(file, sp), "Bürohaus");
    assert_eq!(fds_tbx::formats::smv::lex::byte_span(file, sp), (7, 16));
    assert_eq!(&file[7..16], "Bürohaus");
    let all = Span { start: 0, end: file.chars().count() };
    assert_eq!(fds_tbx::formats::smv::lex::byte_span(file, all), (0, file.len() as u128));
}

#[test]
fn smv_viewtimes_start_read_as_f32() {
    let half_least = "7.00649232162408535461864791644958065640130970938257885878534141944895541342930300743319094181060791015625e-46";
    let just_above = "7.006492321624085354618647916449580656401309709382578858785341419448955413429303007433190941810607910156251e-46";
    for (start, zero) in [
        ("0.00", true),
        ("-0.0", true),
        ("+0e5", true),
        ("1e-46", true),
        ("0.0000000000000000000000000000000000000000000007", true),
        (half_least, true),
        (just_above, false),
        ("1e-45", false),
        ("7.1e-46", false),
        ("1.00", false),
        ("1e-99999999999999999999999999999999", true),
        ("1e+99999999999999999999999999999999", false),
        ("0e99999999999999999999999999999999", true),
        ("inf", false),
        ("NaN", false),
    ] {
        assert_eq!(start.parse::<f32>().unwrap() == 0.0, zero, "{}", start);
        let file = DEMO.replace("     0.00    600.00", &format!("     {}    600.00", start));
        match Smv::parse(&file) {
            Ok(_) => assert!(zero, "{}", start),
            Err(SmvError::InvalidFloatConstant { span }) => {
                assert!(!zero, "{}", start);
                assert_eq!(txt(&file, span), start);
            }
            Err(e) => panic!("unexpected {:?} for {}", e, start),
        }
    }
}
