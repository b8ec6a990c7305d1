use canary::project_layout::{
    recover_project_layout, EnumInfo, FieldInfo, FileType, GroupInfo, LayoutInput, SignatureInfo,
    StructInfo, VariantInfo,
};

fn input() -> LayoutInput {
    LayoutInput {
        function_addrs: vec![0x1000, 0x2000],
        subsystems: vec![],
        modules: vec![],
        structs: vec![StructInfo {
            name: "Point".to_string(),
            fields: vec![
                FieldInfo { name: Some("x".to_string()), ty_hint: Some("int32_t".to_string()), offset: 0, size: 4 },
                FieldInfo { name: None, ty_hint: None, offset: 0x10, size: 1 },
            ],
        }],
        enums: vec![EnumInfo {
            name: "Mode".to_string(),
            variants: vec![
                VariantInfo { name: "Off".to_string(), discriminant: 0 },
                VariantInfo { name: "Neg".to_string(), discriminant: -2 },
            ],
        }],
        symbols: vec![(0x1000, "main".to_string())],
        signatures: vec![(
            0x1000,
            Some(SignatureInfo {
                return_ty: "int".to_string(),
                param_types: vec!["int".to_string(), "char**".to_string()],
            }),
        )],
    }
}

#[test]
fn default_module_layout() {
    let files = recover_project_layout(&input());
    let paths: Vec<&str> = files.iter().map(|f| f.path.as_str()).collect();
    assert_eq!(
        paths,
        vec!["include/common_types.h", "include/main_module.h", "src/main_module.cpp", "CMakeLists.txt"]
    );
    let common = &files[0].content;
    assert!(common.starts_with("#ifndef CANARY_COMMON_TYPES_H\n#define CANARY_COMMON_TYPES_H\n"));
    assert!(common.contains(
        "struct Point {\n    int32_t x; // offset 0x0, size: 4\n    uint8_t field_unknown; // offset 0x10, size: 1\n};\n\n"
    ));
    assert!(common.contains("enum Mode {\n    Off = 0,\n    Neg = -2,\n};\n\n"));
    assert!(common.ends_with("#endif // CANARY_COMMON_TYPES_H\n"));

    let header = &files[1];
    assert_eq!(header.file_type, FileType::Header);
    assert_eq!(
        header.content,
        "#ifndef CANARY_MAIN_MODULE_H\n#define CANARY_MAIN_MODULE_H\n\n#include \"common_types.h\"\n\nint main(int arg_0, char** arg_1);\nvoid sub_2000(void);\n\n#endif // CANARY_MAIN_MODULE_H\n"
    );
    assert_eq!(header.includes, vec!["include/common_types.h".to_string()]);
    assert_eq!(header.symbol_addresses, vec![0x1000, 0x2000]);

    let source = &files[2];
    assert_eq!(source.file_type, FileType::Source);
    assert_eq!(source.content, "#include \"main_module.h\"\n\n");
    assert_eq!(source.includes, vec!["include/main_module.h".to_string()]);

    let cmake = &files[3];
    assert_eq!(cmake.file_type, FileType::Build);
    assert_eq!(
        cmake.content,
        "cmake_minimum_required(VERSION 3.10)\nproject(canary_reconstructed CXX)\n\nset(CMAKE_CXX_STANDARD 17)\n\nadd_executable(reconstructed_app\n    src/main_module.cpp\n)\n\ntarget_include_directories(reconstructed_app PRIVATE include)\n"
    );
}

#[test]
fn subsystems_take_precedence_and_merge_by_name() {
    let mut inp = input();
    inp.modules = vec![GroupInfo { name: "ignored".to_string(), functions: vec![1] }];
    inp.subsystems = vec![
        GroupInfo { name: "net".to_string(), functions: vec![0x1000] },
        GroupInfo { name: "ui".to_string(), functions: vec![] },
        GroupInfo { name: "net".to_string(), functions: vec![0x2000] },
    ];
    let files = recover_project_layout(&inp);
    let paths: Vec<&str> = files.iter().map(|f| f.path.as_str()).collect();
    assert_eq!(
        paths,
        vec![
            "include/common_types.h",
            "include/net.h",
            "src/net.cpp",
            "include/ui.h",
            "src/ui.cpp",
            "CMakeLists.txt"
        ]
    );
    assert_eq!(files[1].symbol_addresses, vec![0x2000]);
    assert!(files[1].content.contains("void sub_2000(void);\n"));
    assert!(files[5].content.contains("    src/net.cpp\n    src/ui.cpp\n"));
}

#[test]
fn module_named_common_types_replaces_shared_header() {
    let mut inp = input();
    inp.modules = vec![GroupInfo { name: "common_types".to_string(), functions: vec![] }];
    let files = recover_project_layout(&inp);
    assert_eq!(files.len(), 3);
    assert_eq!(files[0].path, "include/common_types.h");
    assert!(files[0].content.starts_with("#ifndef CANARY_COMMON_TYPES_H\n#define CANARY_COMMON_TYPES_H\n\n#include \"common_types.h\"\n"));
    assert_eq!(files[1].path, "src/common_types.cpp");
}
