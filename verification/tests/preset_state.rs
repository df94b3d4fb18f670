use projectm_rs::preset::parser::PresetFile;
use projectm_rs::preset::state::PresetSettings;

#[test]
fn defaults_hold_for_an_empty_preset() {
    let f = PresetFile::parse("[preset00]\nfRating=3").unwrap();
    let s = PresetSettings::read(&f);
    assert_eq!(s.preset_version, 100);
    assert_eq!((s.warp_shader_version, s.composite_shader_version), (0, 0));
    assert!(s.maximize_wave_color);
    assert!(s.tex_wrap);
    assert!(!s.brighten);
    assert!(!s.motion_vectors_on);
    assert_eq!(s.wave_mode, 0);
    assert_eq!(s.per_frame_code, "");
    assert_eq!(s.custom_wave_init_code.len(), 4);
    assert_eq!(s.custom_shape_per_frame_code.len(), 4);
}

#[test]
fn shader_versions_follow_the_preset_version() {
    let v200 = PresetFile::parse("MILKDROP_PRESET_VERSION=200\nPSVERSION=3\nPSVERSION_WARP=1").unwrap();
    let s = PresetSettings::read(&v200);
    assert_eq!((s.preset_version, s.warp_shader_version, s.composite_shader_version), (200, 3, 3));
    let v201 = PresetFile::parse("MILKDROP_PRESET_VERSION=201\nPSVERSION=3\nPSVERSION_WARP=4").unwrap();
    let s = PresetSettings::read(&v201);
    assert_eq!((s.preset_version, s.warp_shader_version, s.composite_shader_version), (201, 4, 2));
    let v100 = PresetFile::parse("MILKDROP_PRESET_VERSION=100\nPSVERSION=3").unwrap();
    let s = PresetSettings::read(&v100);
    assert_eq!((s.warp_shader_version, s.composite_shader_version), (0, 0));
}

#[test]
fn flags_and_code_blocks_are_read() {
    let f = PresetFile::parse(
        "nWaveMode=5\nbBrighten=1\nbTexWrap=0\nbMotionVectorsOn=1\n\
         per_frame_1=zoom = 1;\nper_frame_2=rot = 0;\nper_frame_init_1=q1 = 2;\n\
         wave_1_per_point1=x = 1;\nshape_3_init1=a = 1;\nwarp_1=`shader_body\nwarp_2=`{ }\ncomp_1=`x",
    )
    .unwrap();
    let s = PresetSettings::read(&f);
    assert_eq!(s.wave_mode, 5);
    assert!(s.brighten);
    assert!(!s.tex_wrap);
    assert!(s.motion_vectors_on);
    assert_eq!(s.per_frame_code, "zoom = 1;\nrot = 0;\n");
    assert_eq!(s.per_frame_init_code, "q1 = 2;\n");
    assert_eq!(s.custom_wave_per_point_code[1], "x = 1;\n");
    assert_eq!(s.custom_wave_per_point_code[0], "");
    assert_eq!(s.custom_shape_init_code[3], "a = 1;\n");
    assert_eq!(s.warp_shader, "shader_body\n{ }\n");
    assert_eq!(s.composite_shader, "x\n");
}

#[test]
fn shader_sources_come_from_the_warp_and_comp_blocks() {
    let milk = "\
warp_1=`shader_body
warp_2=`{
warp_3=`ret = GetPixel(uv);
warp_4=`}
comp_1=`shader_body { ret = float3(1,0,0); }
";
    let s = PresetSettings::read(&PresetFile::parse(milk).unwrap());
    assert!(s.warp_shader.contains("shader_body"));
    assert!(s.warp_shader.contains("GetPixel"));
    assert!(s.composite_shader.contains("float3(1,0,0)"));
}

#[test]
fn garbage_is_no_preset_file() {
    assert!(PresetFile::parse("\0\0\0").is_none());
}
