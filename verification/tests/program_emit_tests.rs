use canary::program_emit::{
    decode_base64, extract_signature, generate_cmake, generate_cmake_for,
    generate_deterministic_uuid, generate_filters, generate_sln, generate_vcxproj, sanitize_name,
};

#[test]
fn test_visual_studio_project_generation() {
    let name = "CalculatorApp";
    let uuid = generate_deterministic_uuid(name);

    // 1. Verify deterministic UUID format and consistency
    assert_eq!(uuid, generate_deterministic_uuid(name));
    assert_eq!(uuid.len(), 36);
    assert!(uuid.contains('-'));

    // 2. Verify Solution File (.sln) generation
    let sln = generate_sln(name, &uuid);
    assert!(sln.contains("Microsoft Visual Studio Solution File"));
    assert!(sln.contains("Project(\"{8BC9CEB8-8B4A-11D0-8D11-00A0C91BC942}\")"));
    assert!(sln.contains(&format!("\"{}\", \"{}.vcxproj\"", name, name)));

    // 3. Verify MSBuild Project File (.vcxproj) generation
    let cpp_files = vec!["core.cpp".to_string(), "main.cpp".to_string()];
    let h_files = vec!["program.h".to_string(), "imports.h".to_string()];
    let xaml_files = vec!["xaml\\MainPage.xaml".to_string()];
    let resw_files = vec!["strings\\en-US\\Resources.resw".to_string()];

    let vcxproj = generate_vcxproj(&uuid, name, &cpp_files, &h_files, &xaml_files, &resw_files);
    assert!(vcxproj.contains("<Project DefaultTargets=\"Build\""));
    assert!(vcxproj.contains(&format!("<ProjectGuid>{{{}}}</ProjectGuid>", uuid)));
    assert!(vcxproj.contains("<ClCompile Include=\"core.cpp\" />"));
    assert!(vcxproj.contains("<ClInclude Include=\"program.h\" />"));
    assert!(vcxproj.contains("<Page Include=\"xaml\\MainPage.xaml\">"));
    assert!(vcxproj.contains("<PRIResource Include=\"strings\\en-US\\Resources.resw\" />"));

    // 4. Verify Project Filters (.vcxproj.filters) generation
    let filters = generate_filters(&cpp_files, &h_files, &xaml_files, &resw_files);
    assert!(filters.contains("<Project ToolsVersion=\"4.0\""));
    assert!(filters.contains("<Filter Include=\"Source Files\">"));
    assert!(filters.contains("<Filter Include=\"Header Files\">"));
    assert!(filters.contains("<Filter Include=\"Layouts\">"));
    assert!(filters.contains("<Filter Include=\"Resources\">"));
    assert!(filters.contains("<ClCompile Include=\"core.cpp\">"));
    assert!(filters.contains("<Filter>Source Files</Filter>"));
    assert!(filters.contains("<ClInclude Include=\"program.h\">"));
    assert!(filters.contains("<Filter>Header Files</Filter>"));
}

#[test]
fn uuid_has_fixed_shape_and_depends_on_seed() {
    let empty = generate_deterministic_uuid("");
    assert_eq!(empty, "00000000-0000-4000-8000-555555555555");
    let a = generate_deterministic_uuid("a");
    // hash("a") = 97 = 0x61
    assert_eq!(a, "00000061-0000-4000-8000-555555555534");
    for seed in ["x", "CalculatorApp", "a much longer seed with spaces"] {
        let u = generate_deterministic_uuid(seed);
        assert_eq!(u.len(), 36);
        let cs: Vec<char> = u.chars().collect();
        assert_eq!(cs[8], '-');
        assert_eq!(cs[13], '-');
        assert_eq!(cs[18], '-');
        assert_eq!(cs[23], '-');
    }
    assert_ne!(generate_deterministic_uuid("a"), generate_deterministic_uuid("b"));
}

#[test]
fn sln_text_is_exact() {
    let sln = generate_sln("P", "U");
    assert_eq!(
        sln,
        "Microsoft Visual Studio Solution File, Format Version 12.00\n# Visual Studio Version 17\nVisualStudioVersion = 17.0.31903.59\nMinimumVisualStudioVersion = 10.0.40219.1\nProject(\"{8BC9CEB8-8B4A-11D0-8D11-00A0C91BC942}\") = \"P\", \"P.vcxproj\", \"{U}\"\nEndProject\nGlobal\n\tGlobalSection(SolutionConfigurationPlatforms) = preSolution\n\t\tDebug|x64 = Debug|x64\n\t\tRelease|x64 = Release|x64\n\tEndGlobalSection\n\tGlobalSection(ProjectConfigurationPlatforms) = postSolution\n\t\t{U}.Debug|x64.ActiveCfg = Debug|x64\n\t\t{U}.Debug|x64.Build.0 = Debug|x64\n\t\t{U}.Release|x64.ActiveCfg = Release|x64\n\t\t{U}.Release|x64.Build.0 = Release|x64\n\tEndGlobalSection\nEndGlobal\n"
    );
}

#[test]
fn vcxproj_omits_empty_groups() {
    let none: Vec<String> = vec![];
    let x = generate_vcxproj("U", "T", &none, &none, &none, &none);
    assert!(!x.contains("<ClCompile Include"));
    assert!(!x.contains("<Page Include"));
    assert!(x.ends_with("  <Import Project=\"$(VCTargetsPath)\\Microsoft.Cpp.targets\" />\n</Project>\n"));
    let f = generate_filters(&none, &none, &none, &none);
    assert!(f.ends_with("  </ItemGroup>\n</Project>\n"));
    assert!(!f.contains("<PRIResource"));
}

#[test]
fn cmake_for_pe_and_library() {
    let cpp = vec!["src/core.cpp".to_string()];
    let libs = vec!["KERNEL32.dll".to_string()];
    let exe = generate_cmake_for("app", "PE", &cpp, &libs);
    assert!(exe.starts_with("cmake_minimum_required(VERSION 3.20)\nproject(app C)\n"));
    assert!(exe.contains("set(SOURCES\n    src/core.cpp\n)\n\n"));
    assert!(exe.contains("add_executable(app ${SOURCES})\n\n"));
    assert!(exe.contains("target_link_libraries(app PRIVATE\n    # KERNEL32.dll (link manually if needed)\n)\n\n"));
    let lib = generate_cmake_for("libx", "ELF", &cpp, &[]);
    assert!(lib.contains("add_library(libx ${SOURCES})"));
    assert!(!lib.contains("target_link_libraries"));
    let via_path = generate_cmake("PE", "/tmp/bin/tool.exe", &cpp, &[]);
    assert!(via_path.contains("project(tool C)"));
    let no_stem = generate_cmake("PE", "", &cpp, &[]);
    assert!(no_stem.contains("project(program C)"));
}

#[test]
fn sanitize_replaces_non_word_characters() {
    assert_eq!(sanitize_name(".text"), "_text");
    assert_eq!(sanitize_name("my-mod.v2"), "my_mod_v2");
    assert_eq!(sanitize_name("ok_name9"), "ok_name9");
    assert_eq!(sanitize_name(""), "");
}

#[test]
fn base64_decodes_and_rejects() {
    assert_eq!(decode_base64("TWFu"), Some(b"Man".to_vec()));
    assert_eq!(decode_base64("TWE="), Some(b"Ma".to_vec()));
    assert_eq!(decode_base64("TQ=="), Some(b"M".to_vec()));
    assert_eq!(decode_base64(" TW\nFu "), Some(b"Man".to_vec()));
    assert_eq!(decode_base64(""), Some(vec![]));
    assert_eq!(decode_base64("aGVsbG8gd29ybGQ="), Some(b"hello world".to_vec()));
    assert_eq!(decode_base64("+/+/"), Some(vec![0xfb, 0xff, 0xbf]));
    assert_eq!(decode_base64("TW!u"), None);
}

#[test]
fn signature_extraction() {
    let code = "/* Provenance: x */\n// comment\n#define X(a) a\nint foo(int a) {\n  return a;\n}\n";
    assert_eq!(extract_signature(code, "foo", 0x1000), "int foo(int a)");
    let crlf = "\r\n  void bar(void) {{\r\n";
    assert_eq!(extract_signature(crlf, "bar", 1), "void bar(void)");
    assert_eq!(
        extract_signature("/* nothing */\n", "sub_401000", 0x401000),
        "void* sub_401000(void) /* 0x401000 */"
    );
    assert_eq!(extract_signature("", "f", 0), "void* f(void) /* 0x0 */");
}

#[test]
fn cmake_project_named_after_a_plain_file_stem() {
    let cpp = vec!["a.cpp".to_string()];
    assert!(generate_cmake("ELF", "server.bin", &cpp, &[]).contains("project(server C)"));
    assert!(generate_cmake("ELF", "archive.tar.gz", &cpp, &[]).contains("project(archive.tar C)"));
    assert!(generate_cmake("ELF", ".hidden", &cpp, &[]).contains("project(.hidden C)"));
    assert!(generate_cmake("ELF", "plain", &cpp, &[]).contains("project(plain C)"));
}

#[test]
fn base64_round_trips_padded_groups() {
    assert_eq!(decode_base64("TWFu"), Some(b"Man".to_vec()));
    assert_eq!(decode_base64("TWE="), Some(b"Ma".to_vec()));
    assert_eq!(decode_base64("TQ=="), Some(b"M".to_vec()));
    assert_eq!(decode_base64("TW Fu"), Some(b"Man".to_vec()));
    assert_eq!(decode_base64("TW*u"), None);
    assert_eq!(decode_base64("AP8A/w=="), Some(vec![0u8, 255, 0, 255]));
}

#[test]
fn cmake_project_named_after_the_final_component() {
    let cpp = vec!["src/core.cpp".to_string()];
    let exe = generate_cmake("PE", "out/app.exe", &cpp, &[]);
    assert!(exe.contains("project(app C)"));
    assert!(exe.contains("add_executable(app ${SOURCES})"));
    assert!(exe.contains("    src/core.cpp"));
    assert!(!exe.contains("add_library"));
    assert!(!exe.contains("target_link_libraries"));
    let lib = generate_cmake("ELF", "out/app.exe", &cpp, &["libc.so".to_string()]);
    assert!(lib.contains("add_library(app ${SOURCES})"));
    assert!(lib.contains("    # libc.so (link manually if needed)"));
}

#[test]
fn sanitize_turns_punctuation_into_underscores() {
    assert_eq!(sanitize_name(".text$mn"), "_text_mn");
}

#[test]
fn base64_fails_only_on_foreign_characters() {
    assert_eq!(decode_base64("TW Fu"), Some(b"Man".to_vec()));
    assert_eq!(decode_base64("T=W=F=u"), Some(b"Man".to_vec()));
    assert_eq!(decode_base64("TW*u"), None);
    assert_eq!(decode_base64("TWFu\u{e9}"), None);
}
