//! Project-file emission for a reconstructed program: the CMake build, the
//! Visual Studio solution, project and filter files, the deterministic
//! project GUID, signature extraction from emitted C code, file-name
//! sanitising and the base64 decoding of embedded resources.

use vstd::prelude::*;
use std::path::Path;
use crate::text::{
    chars_start_with, digits, hex_lower, hex_upper_padded, push_char, push_chars, push_hex_lower,
    push_hex_upper_padded, starts_with, str_eq, to_chars,
};

verus! {

// ---------------------------------------------------------------------------
// Character classes of the standard library
// ---------------------------------------------------------------------------

/// What `char::is_alphanumeric` answers for a character outside ASCII.
pub uninterp spec fn non_ascii_alphanumeric(c: char) -> bool;

/// The characters outside ASCII with the Unicode White_Space property:
/// next line, no-break space, Ogham space mark, the spaces from en quad to
/// hair space, line and paragraph separators, narrow no-break space, medium
/// mathematical space and ideographic space.
pub open spec fn non_ascii_whitespace(c: char) -> bool {
    let u = c as u32;
    u == 0x85 || u == 0xA0 || u == 0x1680 || (0x2000 <= u && u <= 0x200A) || u == 0x2028 || u
        == 0x2029 || u == 0x202F || u == 0x205F || u == 0x3000
}

/// An ASCII letter or digit.
pub open spec fn ascii_alphanumeric(c: char) -> bool {
    ('0' <= c && c <= '9') || ('A' <= c && c <= 'Z') || ('a' <= c && c <= 'z')
}

/// An ASCII space, tab, line feed, vertical tab, form feed or carriage
/// return.
pub open spec fn ascii_whitespace(c: char) -> bool {
    (9 <= c as u32 && c as u32 <= 13) || c as u32 == 32
}

/// What `char::is_alphanumeric` answers: within ASCII, the letters and
/// digits.
pub open spec fn char_is_alphanumeric(c: char) -> bool {
    if (c as u32) < 128 {
        ascii_alphanumeric(c)
    } else {
        non_ascii_alphanumeric(c)
    }
}

/// What `char::is_whitespace` answers: within ASCII, space and the
/// characters from tab to carriage return.
pub open spec fn char_is_whitespace(c: char) -> bool {
    if (c as u32) < 128 {
        ascii_whitespace(c)
    } else {
        non_ascii_whitespace(c)
    }
}

/// `char::is_alphanumeric`: whether `c` is alphabetic or numeric in
/// Unicode. Within ASCII these are exactly the letters and digits; beyond
/// ASCII the answer is named, not spelled out.
#[verifier::external_body]
fn is_alphanumeric(c: char) -> (r: bool)
    ensures
        (c as u32) < 128 ==> r == ascii_alphanumeric(c),
        (c as u32) >= 128 ==> r == non_ascii_alphanumeric(c),
{
    c.is_alphanumeric()
}

/// Whether `c` has the Unicode White_Space property, as
/// `char::is_whitespace` answers: space and tab to carriage return
/// (`U+0009`..`U+000D`) within ASCII, and the characters
/// `non_ascii_whitespace` lists beyond it.
fn is_whitespace(c: char) -> (r: bool)
    ensures
        r == char_is_whitespace(c),
{
    let u = c as u32;
    if u < 128 {
        (9 <= u && u <= 13) || u == 32
    } else {
        u == 0x85 || u == 0xA0 || u == 0x1680 || (0x2000 <= u && u <= 0x200A) || u == 0x2028 || u
            == 0x2029 || u == 0x202F || u == 0x205F || u == 0x3000
    }
}

/// The index of the last `.` among the first `i` characters of `p`.
pub open spec fn last_dot(p: Seq<char>, i: int) -> Option<int>
    decreases i,
{
    if i <= 0 || i > p.len() {
        None
    } else if p[i - 1] == '.' {
        Some(i - 1)
    } else {
        last_dot(p, i - 1)
    }
}

/// The index of the last `/` among the first `i` characters of `p`.
pub open spec fn last_slash(p: Seq<char>, i: int) -> Option<int>
    decreases i,
{
    if i <= 0 || i > p.len() {
        None
    } else if p[i - 1] == '/' {
        Some(i - 1)
    } else {
        last_slash(p, i - 1)
    }
}

/// The text after the last `/` of `p` (all of `p` where it has none): the
/// final component, since `/` separates components on every platform.
pub open spec fn last_component(p: Seq<char>) -> Seq<char> {
    match last_slash(p, p.len() as int) {
        Some(k) => p.subrange(k + 1, p.len() as int),
        None => p,
    }
}

/// A path that is one plain file name on every platform: not empty, not
/// `.` or `..`, and free of `/`, `\` and `:`.
pub open spec fn plain_file_name(p: Seq<char>) -> bool {
    &&& p.len() > 0
    &&& p != "."@
    &&& p != ".."@
    &&& !p.contains('/')
    &&& !p.contains('\\')
    &&& !p.contains(':')
}

/// The stem of a file name, as `Path::file_stem` documents it: the part
/// before the last `.`, or the whole name where it has no `.` other than a
/// leading one.
pub open spec fn stem_of(name: Seq<char>) -> Seq<char> {
    match last_dot(name, name.len() as int) {
        Some(k) => if k > 0 {
            name.take(k)
        } else {
            name
        },
        None => name,
    }
}

/// `Path::file_stem` of the path `p`, converted with `OsStr::to_str`. As
/// std documents it, a stem is never empty and holds no `/`; the file name
/// is the final component, and `/` separates components on every
/// platform, so where the text after the last `/` is one plain file name
/// the stem is that name's. What other paths give (a final component with
/// `\` or `:`, or a path ending in `/`, `.` or `..`) depends on the
/// platform's path syntax and is not stated.
#[verifier::external_body]
fn file_stem_string(p: &str) -> (r: Option<String>)
    ensures
        r matches Some(s) ==> s@.len() > 0 && !s@.contains('/'),
        match r {
            Some(s) => plain_file_name(last_component(p@)) ==> s@ == stem_of(last_component(p@)),
            None => !plain_file_name(last_component(p@)),
        },
{
    Path::new(p).file_stem().and_then(|s| s.to_str()).map(|s| s.to_string())
}

// ---------------------------------------------------------------------------
// Sequences of strings
// ---------------------------------------------------------------------------

/// The characters of each string.
pub open spec fn strs(v: Seq<String>) -> Seq<Seq<char>> {
    v.map_values(|s: String| s@)
}

/// Each item wrapped as `pre item post`, concatenated in order.
pub open spec fn items(fs: Seq<Seq<char>>, pre: Seq<char>, post: Seq<char>) -> Seq<char>
    decreases fs.len(),
{
    if fs.len() == 0 {
        seq![]
    } else {
        items(fs.drop_last(), pre, post) + pre + fs.last() + post
    }
}

/// Appends `pre f post` for each `f` in `fs`.
fn push_items(out: &mut String, fs: &[String], pre: &str, post: &str)
    ensures
        final(out)@ == old(out)@ + items(strs(fs@), pre@, post@),
{
    let mut i: usize = 0;
    while i < fs.len()
        invariant
            i <= fs@.len(),
            out@ == old(out)@ + items(strs(fs@.subrange(0, i as int)), pre@, post@),
        decreases fs@.len() - i,
    {
        out.append(pre);
        out.append(fs[i].as_str());
        out.append(post);
        assert(strs(fs@.subrange(0, i + 1)).drop_last() =~= strs(fs@.subrange(0, i as int)));
        assert(out@ =~= old(out)@ + items(strs(fs@.subrange(0, i + 1)), pre@, post@));
        i = i + 1;
    }
    assert(fs@.subrange(0, fs@.len() as int) =~= fs@);
}

/// An `ItemGroup` listing `fs`, or nothing when `fs` is empty.
pub open spec fn item_group(fs: Seq<Seq<char>>, pre: Seq<char>, post: Seq<char>) -> Seq<char> {
    if fs.len() == 0 {
        seq![]
    } else {
        GROUP_OPEN@ + items(fs, pre, post) + GROUP_CLOSE@
    }
}

fn push_item_group(out: &mut String, fs: &[String], pre: &str, post: &str)
    ensures
        final(out)@ == old(out)@ + item_group(strs(fs@), pre@, post@),
{
    if fs.len() != 0 {
        out.append(GROUP_OPEN);
        push_items(out, fs, pre, post);
        out.append(GROUP_CLOSE);
        assert(out@ =~= old(out)@ + item_group(strs(fs@), pre@, post@));
    } else {
        assert(out@ =~= old(out)@ + item_group(strs(fs@), pre@, post@));
    }
}

pub const GROUP_OPEN: &'static str = "  <ItemGroup>\n";
pub const GROUP_CLOSE: &'static str = "  </ItemGroup>\n";

// ---------------------------------------------------------------------------
// CMakeLists.txt
// ---------------------------------------------------------------------------

pub const CMAKE_HEAD: &'static str = "cmake_minimum_required(VERSION 3.20)\nproject(";
pub const CMAKE_STD: &'static str = " C)\n\nset(CMAKE_C_STANDARD 99)\nset(CMAKE_C_STANDARD_REQUIRED ON)\n\nset(SOURCES\n";
pub const CMAKE_SRC_PRE: &'static str = "    ";
pub const CMAKE_SRC_POST: &'static str = "\n";
pub const CMAKE_SRC_END: &'static str = ")\n\n";
pub const CMAKE_EXE: &'static str = "add_executable";
pub const CMAKE_LIB: &'static str = "add_library";
pub const CMAKE_TARGET_OPEN: &'static str = "(";
pub const CMAKE_TARGET_CLOSE: &'static str = " ${SOURCES})\n\n";
pub const CMAKE_INC_OPEN: &'static str = "target_include_directories(";
pub const CMAKE_INC_CLOSE: &'static str = " PRIVATE ${CMAKE_CURRENT_SOURCE_DIR})\n\n";
pub const CMAKE_LINK_OPEN: &'static str = "target_link_libraries(";
pub const CMAKE_LINK_PRIVATE: &'static str = " PRIVATE\n";
pub const CMAKE_LIB_PRE: &'static str = "    # ";
pub const CMAKE_LIB_POST: &'static str = " (link manually if needed)\n";
pub const CMAKE_LINK_CLOSE: &'static str = ")\n\n";
pub const CMAKE_NOTES: &'static str = "# Reconstruction Notes:\n# This CMake project was generated by Canary from a binary.\n# The code may require manual cleanup before it compiles cleanly.\n# See RECONSTRUCTION.md for analysis details.\n";
pub const FORMAT_PE: &'static str = "PE";
pub const DEFAULT_BINARY_NAME: &'static str = "program";

/// The text of CMakeLists.txt for target `name`.
pub open spec fn cmake_text(
    name: Seq<char>,
    format: Seq<char>,
    cpp_files: Seq<Seq<char>>,
    libs: Seq<Seq<char>>,
) -> Seq<char> {
    let target = if format == FORMAT_PE@ {
        CMAKE_EXE@
    } else {
        CMAKE_LIB@
    };
    let link = if libs.len() == 0 {
        seq![]
    } else {
        CMAKE_LINK_OPEN@ + name + CMAKE_LINK_PRIVATE@ + items(libs, CMAKE_LIB_PRE@, CMAKE_LIB_POST@)
            + CMAKE_LINK_CLOSE@
    };
    CMAKE_HEAD@ + name + CMAKE_STD@ + items(cpp_files, CMAKE_SRC_PRE@, CMAKE_SRC_POST@)
        + CMAKE_SRC_END@ + target + CMAKE_TARGET_OPEN@ + name + CMAKE_TARGET_CLOSE@
        + CMAKE_INC_OPEN@ + name + CMAKE_INC_CLOSE@ + link + CMAKE_NOTES@
}

/// Generates CMakeLists.txt for the target `binary_name`: an executable
/// when `format` is `"PE"`, a library otherwise.
pub fn generate_cmake_for(
    binary_name: &str,
    format: &str,
    cpp_files: &[String],
    libs: &[String],
) -> (r: String)
    ensures
        r@ == cmake_text(binary_name@, format@, strs(cpp_files@), strs(libs@)),
{
    let mut c = String::new();
    c.append(CMAKE_HEAD);
    c.append(binary_name);
    c.append(CMAKE_STD);
    push_items(&mut c, cpp_files, CMAKE_SRC_PRE, CMAKE_SRC_POST);
    c.append(CMAKE_SRC_END);
    if str_eq(format, FORMAT_PE) {
        c.append(CMAKE_EXE);
    } else {
        c.append(CMAKE_LIB);
    }
    c.append(CMAKE_TARGET_OPEN);
    c.append(binary_name);
    c.append(CMAKE_TARGET_CLOSE);
    c.append(CMAKE_INC_OPEN);
    c.append(binary_name);
    c.append(CMAKE_INC_CLOSE);
    let ghost before_link = c@;
    if libs.len() != 0 {
        c.append(CMAKE_LINK_OPEN);
        c.append(binary_name);
        c.append(CMAKE_LINK_PRIVATE);
        push_items(&mut c, libs, CMAKE_LIB_PRE, CMAKE_LIB_POST);
        c.append(CMAKE_LINK_CLOSE);
    }
    c.append(CMAKE_NOTES);
    assert(c@ =~= cmake_text(binary_name@, format@, strs(cpp_files@), strs(libs@)));
    c
}

/// Generates CMakeLists.txt for the binary at `binary_path`, named after
/// the path's file stem (`"program"` when it has none).
pub fn generate_cmake(format: &str, binary_path: &str, cpp_files: &[String], libs: &[String]) -> (r:
    String)
    ensures
        plain_file_name(last_component(binary_path@)) ==> r@ == cmake_text(
            stem_of(last_component(binary_path@)),
            format@,
            strs(cpp_files@),
            strs(libs@),
        ),
        exists|name: Seq<char>|
            #![trigger cmake_text(name, format@, strs(cpp_files@), strs(libs@))]
            r@ == cmake_text(name, format@, strs(cpp_files@), strs(libs@)) && (name == DEFAULT_BINARY_NAME@ || (
            name.len() > 0 && !name.contains('/'))),
{
    let stem = file_stem_string(binary_path);
    match stem {
        Some(name) => {
            let r = generate_cmake_for(name.as_str(), format, cpp_files, libs);
            assert(r@ == cmake_text(name@, format@, strs(cpp_files@), strs(libs@)));
            assert(name@.len() > 0 && !name@.contains('/'));
            r
        },
        None => {
            let r = generate_cmake_for(DEFAULT_BINARY_NAME, format, cpp_files, libs);
            assert(r@ == cmake_text(DEFAULT_BINARY_NAME@, format@, strs(cpp_files@), strs(libs@)));
            r
        },
    }
}

// ---------------------------------------------------------------------------
// Visual Studio solution (.sln)
// ---------------------------------------------------------------------------

pub const SLN_HEAD: &'static str = "Microsoft Visual Studio Solution File, Format Version 12.00\n# Visual Studio Version 17\nVisualStudioVersion = 17.0.31903.59\nMinimumVisualStudioVersion = 10.0.40219.1\nProject(\"{8BC9CEB8-8B4A-11D0-8D11-00A0C91BC942}\") = \"";
pub const SLN_NAME_SEP: &'static str = "\", \"";
pub const SLN_PROJ_FILE: &'static str = ".vcxproj\", \"{";
pub const SLN_PROJ_END: &'static str = "}\"\nEndProject\nGlobal\n\tGlobalSection(SolutionConfigurationPlatforms) = preSolution\n\t\tDebug|x64 = Debug|x64\n\t\tRelease|x64 = Release|x64\n\tEndGlobalSection\n\tGlobalSection(ProjectConfigurationPlatforms) = postSolution\n\t\t{";
pub const SLN_DEBUG_ACTIVE: &'static str = "}.Debug|x64.ActiveCfg = Debug|x64\n\t\t{";
pub const SLN_DEBUG_BUILD: &'static str = "}.Debug|x64.Build.0 = Debug|x64\n\t\t{";
pub const SLN_RELEASE_ACTIVE: &'static str = "}.Release|x64.ActiveCfg = Release|x64\n\t\t{";
pub const SLN_RELEASE_BUILD: &'static str = "}.Release|x64.Build.0 = Release|x64\n\tEndGlobalSection\nEndGlobal\n";

/// The text of the solution file for one x64 project.
pub open spec fn sln_text(name: Seq<char>, uuid: Seq<char>) -> Seq<char> {
    SLN_HEAD@ + name + SLN_NAME_SEP@ + name + SLN_PROJ_FILE@ + uuid + SLN_PROJ_END@ + uuid
        + SLN_DEBUG_ACTIVE@ + uuid + SLN_DEBUG_BUILD@ + uuid + SLN_RELEASE_ACTIVE@ + uuid
        + SLN_RELEASE_BUILD@
}

/// Generates a Visual Studio solution holding the single project
/// `project_name` with GUID `project_uuid`, in Debug and Release x64.
pub fn generate_sln(project_name: &str, project_uuid: &str) -> (r: String)
    ensures
        r@ == sln_text(project_name@, project_uuid@),
{
    let mut s = String::new();
    s.append(SLN_HEAD);
    s.append(project_name);
    s.append(SLN_NAME_SEP);
    s.append(project_name);
    s.append(SLN_PROJ_FILE);
    s.append(project_uuid);
    s.append(SLN_PROJ_END);
    s.append(project_uuid);
    s.append(SLN_DEBUG_ACTIVE);
    s.append(project_uuid);
    s.append(SLN_DEBUG_BUILD);
    s.append(project_uuid);
    s.append(SLN_RELEASE_ACTIVE);
    s.append(project_uuid);
    s.append(SLN_RELEASE_BUILD);
    assert(s@ =~= sln_text(project_name@, project_uuid@));
    s
}

// ---------------------------------------------------------------------------
// MSBuild project (.vcxproj)
// ---------------------------------------------------------------------------

pub const VCX_HEAD: &'static str = "<?xml version=\"1.0\" encoding=\"utf-8\"?>\n<Project DefaultTargets=\"Build\" xmlns=\"http://schemas.microsoft.com/developer/msbuild/2003\">\n  <ItemGroup Label=\"ProjectConfigurations\">\n    <ProjectConfiguration Include=\"Debug|x64\">\n      <Configuration>Debug</Configuration>\n      <Platform>x64</Platform>\n    </ProjectConfiguration>\n    <ProjectConfiguration Include=\"Release|x64\">\n      <Configuration>Release</Configuration>\n      <Platform>x64</Platform>\n    </ProjectConfiguration>\n  </ItemGroup>\n  <PropertyGroup Label=\"Globals\">\n    <ProjectGuid>{";
pub const VCX_GUID_END: &'static str = "}</ProjectGuid>\n    <Keyword>Win32Proj</Keyword>\n    <RootNamespace>";
pub const VCX_NS_END: &'static str = "</RootNamespace>\n    <WindowsTargetPlatformVersion>10.0</WindowsTargetPlatformVersion>\n    <WindowsTargetPlatformMinVersion>10.0.17763.0</WindowsTargetPlatformMinVersion>\n  </PropertyGroup>\n  <Import Project=\"$(VCTargetsPath)\\Microsoft.Cpp.Default.props\" />\n  <PropertyGroup Label=\"Configuration\">\n    <ConfigurationType>Application</ConfigurationType>\n    <PlatformToolset>v143</PlatformToolset>\n    <CharacterSet>Unicode</CharacterSet>\n  </PropertyGroup>\n  <Import Project=\"$(VCTargetsPath)\\Microsoft.Cpp.props\" />\n  <ImportGroup Label=\"ExtensionSettings\" />\n  <ImportGroup Label=\"Shared\" />\n  <ImportGroup Label=\"PropertySheets\">\n    <Import Project=\"$(UserRootDir)\\Microsoft.Cpp.$(Platform).user.props\" Condition=\"exists('$(UserRootDir)\\Microsoft.Cpp.$(Platform).user.props')\" Label=\"LocalAppDataPlatform\" />\n  </ImportGroup>\n  <PropertyGroup Label=\"UserMacros\" />\n  <ItemDefinitionGroup>\n    <ClCompile>\n      <WarningLevel>Level3</WarningLevel>\n      <PreprocessorDefinitions>WIN32;_DEBUG;_CONSOLE;%(PreprocessorDefinitions)</PreprocessorDefinitions>\n      <ConformanceMode>true</ConformanceMode>\n      <LanguageStandard>stdcpp20</LanguageStandard>\n    </ClCompile>\n  </ItemDefinitionGroup>\n";
pub const VCX_CPP_PRE: &'static str = "    <ClCompile Include=\"";
pub const VCX_H_PRE: &'static str = "    <ClInclude Include=\"";
pub const VCX_PAGE_PRE: &'static str = "    <Page Include=\"";
pub const VCX_RES_PRE: &'static str = "    <PRIResource Include=\"";
pub const VCX_CLOSE_TAG: &'static str = "\" />\n";
pub const VCX_PAGE_POST: &'static str = "\">\n      <SubType>Designer</SubType>\n    </Page>\n";
pub const VCX_END: &'static str = "  <Import Project=\"$(VCTargetsPath)\\Microsoft.Cpp.targets\" />\n</Project>\n";

/// The text of the MSBuild project file.
pub open spec fn vcxproj_text(
    uuid: Seq<char>,
    name: Seq<char>,
    cpp: Seq<Seq<char>>,
    h: Seq<Seq<char>>,
    xaml: Seq<Seq<char>>,
    resw: Seq<Seq<char>>,
) -> Seq<char> {
    VCX_HEAD@ + uuid + VCX_GUID_END@ + name + VCX_NS_END@ + item_group(
        cpp,
        VCX_CPP_PRE@,
        VCX_CLOSE_TAG@,
    ) + item_group(h, VCX_H_PRE@, VCX_CLOSE_TAG@) + item_group(xaml, VCX_PAGE_PRE@, VCX_PAGE_POST@)
        + item_group(resw, VCX_RES_PRE@, VCX_CLOSE_TAG@) + VCX_END@
}

/// Generates the MSBuild project for an x64 application with the given
/// sources, headers, XAML pages and resource tables.
pub fn generate_vcxproj(
    project_uuid: &str,
    target_name: &str,
    cpp_files: &[String],
    h_files: &[String],
    xaml_files: &[String],
    resw_files: &[String],
) -> (r: String)
    ensures
        r@ == vcxproj_text(
            project_uuid@,
            target_name@,
            strs(cpp_files@),
            strs(h_files@),
            strs(xaml_files@),
            strs(resw_files@),
        ),
{
    let mut x = String::new();
    x.append(VCX_HEAD);
    x.append(project_uuid);
    x.append(VCX_GUID_END);
    x.append(target_name);
    x.append(VCX_NS_END);
    push_item_group(&mut x, cpp_files, VCX_CPP_PRE, VCX_CLOSE_TAG);
    push_item_group(&mut x, h_files, VCX_H_PRE, VCX_CLOSE_TAG);
    push_item_group(&mut x, xaml_files, VCX_PAGE_PRE, VCX_PAGE_POST);
    push_item_group(&mut x, resw_files, VCX_RES_PRE, VCX_CLOSE_TAG);
    x.append(VCX_END);
    assert(x@ =~= vcxproj_text(
        project_uuid@,
        target_name@,
        strs(cpp_files@),
        strs(h_files@),
        strs(xaml_files@),
        strs(resw_files@),
    ));
    x
}

// ---------------------------------------------------------------------------
// Project filters (.vcxproj.filters)
// ---------------------------------------------------------------------------

pub const FLT_HEAD: &'static str = "<?xml version=\"1.0\" encoding=\"utf-8\"?>\n<Project ToolsVersion=\"4.0\" xmlns=\"http://schemas.microsoft.com/developer/msbuild/2003\">\n  <ItemGroup>\n    <Filter Include=\"Source Files\">\n      <UniqueIdentifier>{4FC737F1-C7A5-4376-A066-2A32D752A2FF}</UniqueIdentifier>\n      <Extensions>cpp;c;cc;cxx;def;odl;idl;hpj;bat;asm;asmx</Extensions>\n    </Filter>\n    <Filter Include=\"Header Files\">\n      <UniqueIdentifier>{93995380-89BD-4b04-88EB-625FBE52EBFB}</UniqueIdentifier>\n      <Extensions>h;hh;hpp;hxx;hm;inl;inc;ipp;xsd</Extensions>\n    </Filter>\n    <Filter Include=\"Layouts\">\n      <UniqueIdentifier>{54A6BE5C-34CD-49EB-87A3-20DE3FF07D87}</UniqueIdentifier>\n      <Extensions>xaml</Extensions>\n    </Filter>\n    <Filter Include=\"Resources\">\n      <UniqueIdentifier>{67DA6AB6-F800-4c08-8B7A-83BB121AAD01}</UniqueIdentifier>\n      <Extensions>resw;resx;tiff;tif;png;png;jpg;jpeg;jpe;sdk;pri</Extensions>\n    </Filter>\n  </ItemGroup>\n";
pub const FLT_CPP_POST: &'static str = "\">\n      <Filter>Source Files</Filter>\n    </ClCompile>\n";
pub const FLT_H_POST: &'static str = "\">\n      <Filter>Header Files</Filter>\n    </ClInclude>\n";
pub const FLT_PAGE_POST: &'static str = "\">\n      <Filter>Layouts</Filter>\n    </Page>\n";
pub const FLT_RES_POST: &'static str = "\">\n      <Filter>Resources</Filter>\n    </PRIResource>\n";
pub const FLT_END: &'static str = "</Project>\n";

/// The text of the project filters file.
pub open spec fn filters_text(
    cpp: Seq<Seq<char>>,
    h: Seq<Seq<char>>,
    xaml: Seq<Seq<char>>,
    resw: Seq<Seq<char>>,
) -> Seq<char> {
    FLT_HEAD@ + item_group(cpp, VCX_CPP_PRE@, FLT_CPP_POST@) + item_group(h, VCX_H_PRE@, FLT_H_POST@)
        + item_group(xaml, VCX_PAGE_PRE@, FLT_PAGE_POST@) + item_group(
        resw,
        VCX_RES_PRE@,
        FLT_RES_POST@,
    ) + FLT_END@
}

/// Generates the filters file that sorts the project's items into the
/// Source Files, Header Files, Layouts and Resources folders.
pub fn generate_filters(
    cpp_files: &[String],
    h_files: &[String],
    xaml_files: &[String],
    resw_files: &[String],
) -> (r: String)
    ensures
        r@ == filters_text(strs(cpp_files@), strs(h_files@), strs(xaml_files@), strs(resw_files@)),
{
    let mut x = String::new();
    x.append(FLT_HEAD);
    push_item_group(&mut x, cpp_files, VCX_CPP_PRE, FLT_CPP_POST);
    push_item_group(&mut x, h_files, VCX_H_PRE, FLT_H_POST);
    push_item_group(&mut x, xaml_files, VCX_PAGE_PRE, FLT_PAGE_POST);
    push_item_group(&mut x, resw_files, VCX_RES_PRE, FLT_RES_POST);
    x.append(FLT_END);
    assert(x@ =~= filters_text(
        strs(cpp_files@),
        strs(h_files@),
        strs(xaml_files@),
        strs(resw_files@),
    ));
    x
}

} // verus!

verus! {

// ---------------------------------------------------------------------------
// Deterministic project GUID
// ---------------------------------------------------------------------------

/// The 64-bit polynomial hash (factor 31, wrapping) of the characters of `s`.
pub open spec fn seed_hash(s: Seq<char>) -> u64
    decreases s.len(),
{
    if s.len() == 0 {
        0
    } else {
        ((seed_hash(s.drop_last()) as nat * 31 + (s.last() as u32) as nat) % 0x1_0000_0000_0000_0000) as u64
    }
}

/// The GUID text derived from the hash `h`: five upper-case hexadecimal
/// groups of 8, 4, 4, 4 and 12 digits, with version 4 and variant bits set.
pub open spec fn uuid_text(h: u64) -> Seq<char> {
    hex_upper_padded((h & 0xFFFF_FFFF) as nat, 8) + seq!['-'] + hex_upper_padded(
        ((h >> 32u64) & 0xFFFF) as nat,
        4,
    ) + seq!['-'] + hex_upper_padded((0x4000u64 | ((h >> 48u64) & 0x0FFF)) as nat, 4) + seq!['-']
        + hex_upper_padded((0x8000u64 | ((h >> 60u64) & 0x3FFF)) as nat, 4) + seq!['-']
        + hex_upper_padded(((h ^ 0x5555_5555_5555_5555u64) & 0xFFFF_FFFF_FFFF) as nat, 12)
}

/// Generates a GUID-shaped identifier that depends only on `seed`.
pub fn generate_deterministic_uuid(seed: &str) -> (r: String)
    ensures
        r@ == uuid_text(seed_hash(seed@)),
{
    let cs = to_chars(seed);
    let mut hash: u64 = 0;
    let mut i: usize = 0;
    while i < cs.len()
        invariant
            cs@ == seed@,
            i <= cs@.len(),
            hash == seed_hash(cs@.subrange(0, i as int)),
        decreases cs@.len() - i,
    {
        let c = cs[i];
        let cv: u64 = c as u32 as u64;
        assert(cv as int == (c as u32) as int);
        let ghost prev = hash;
        hash = hash.wrapping_mul(31).wrapping_add(cv);
        proof {
            let s1 = cs@.subrange(0, i + 1);
            assert(s1.drop_last() =~= cs@.subrange(0, i as int));
            assert(s1.last() == c);
            let m: int = 0x1_0000_0000_0000_0000;
            let x: int = (prev as int * 31) % m;
            let y: int = cv as int;
            assert(0 <= y < 0x1_0000_0000);
            assert(0 <= x < m);
            assert(hash as int == (x + y) % m) by {
                if x + y >= m {
                    assert((x + y) % m == x + y - m) by (nonlinear_arith)
                        requires
                            m == 0x1_0000_0000_0000_0000,
                            m <= x + y < 2 * m,
                    ;
                } else {
                    assert((x + y) % m == x + y) by (nonlinear_arith)
                        requires
                            m == 0x1_0000_0000_0000_0000,
                            0 <= x + y < m,
                    ;
                }
            }
            vstd::arithmetic::div_mod::lemma_add_mod_noop(prev as int * 31, y, m);
            assert(y % m == y) by (nonlinear_arith)
                requires
                    m == 0x1_0000_0000_0000_0000,
                    0 <= y < m,
            ;
        }
        i = i + 1;
    }
    assert(cs@.subrange(0, cs@.len() as int) =~= seed@);
    let mut s = String::new();
    push_hex_upper_padded(&mut s, hash & 0xFFFF_FFFF, 8);
    push_char(&mut s, '-');
    push_hex_upper_padded(&mut s, (hash >> 32u64) & 0xFFFF, 4);
    push_char(&mut s, '-');
    push_hex_upper_padded(&mut s, 0x4000u64 | ((hash >> 48u64) & 0x0FFF), 4);
    push_char(&mut s, '-');
    push_hex_upper_padded(&mut s, 0x8000u64 | ((hash >> 60u64) & 0x3FFF), 4);
    push_char(&mut s, '-');
    push_hex_upper_padded(&mut s, (hash ^ 0x5555_5555_5555_5555u64) & 0xFFFF_FFFF_FFFF, 12);
    assert(s@ =~= uuid_text(hash));
    s
}

// ---------------------------------------------------------------------------
// File-name sanitising
// ---------------------------------------------------------------------------

/// `c` kept when alphanumeric or `'_'`, otherwise `'_'`.
pub open spec fn sanitize_char(c: char) -> char {
    if char_is_alphanumeric(c) || c == '_' {
        c
    } else {
        '_'
    }
}

/// Sanitizes a module name for use as a file name: every character that is
/// neither alphanumeric nor `'_'` becomes `'_'`.
pub fn sanitize_name(name: &str) -> (r: String)
    ensures
        r@ == name@.map_values(|c: char| sanitize_char(c)),
{
    let cs = to_chars(name);
    let mut out: Vec<char> = Vec::new();
    let mut i: usize = 0;
    while i < cs.len()
        invariant
            cs@ == name@,
            i <= cs@.len(),
            out@ == cs@.subrange(0, i as int).map_values(|c: char| sanitize_char(c)),
        decreases cs@.len() - i,
    {
        let c = cs[i];
        let k = if is_alphanumeric(c) || c == '_' {
            c
        } else {
            '_'
        };
        out.push(k);
        assert(cs@.subrange(0, i + 1).map_values(|c: char| sanitize_char(c)) =~= cs@.subrange(
            0,
            i as int,
        ).map_values(|c: char| sanitize_char(c)).push(k));
        i = i + 1;
    }
    assert(cs@.subrange(0, cs@.len() as int) =~= cs@);
    let mut s = String::new();
    push_chars(&mut s, &out);
    assert(s@ =~= name@.map_values(|c: char| sanitize_char(c)));
    s
}

} // verus!

verus! {

/// `b` raised to `e`.
pub open spec fn pow_nat(b: nat, e: nat) -> nat
    decreases e,
{
    if e == 0 {
        1
    } else {
        b * pow_nat(b, (e - 1) as nat)
    }
}

proof fn lemma_digits_len(n: nat, base: nat, k: nat, upper: bool)
    requires
        2 <= base,
        1 <= k,
        n < pow_nat(base, k),
    ensures
        digits(n, base, upper).len() <= k,
    decreases n,
{
    if n >= base {
        if k == 1 {
            assert(pow_nat(base, 1) == base * pow_nat(base, 0));
            assert(pow_nat(base, 0) == 1);
            assert(base * 1 == base);
            assert(false);
        }
        let p = pow_nat(base, (k - 1) as nat);
        assert(n / base < p) by (nonlinear_arith)
            requires
                n < base * p,
                base >= 2,
        ;
        assert(n / base < n) by (nonlinear_arith)
            requires
                base >= 2,
                n >= base,
        ;
        lemma_digits_len(n / base, base, (k - 1) as nat, upper);
    }
}

proof fn lemma_hex_padded_len(n: nat, w: nat)
    requires
        1 <= w,
        n < pow_nat(16, w),
    ensures
        hex_upper_padded(n, w).len() == w,
{
    lemma_digits_len(n, 16, w, true);
}

/// Every generated project GUID has 36 characters: groups of 8, 4, 4, 4
/// and 12 hexadecimal digits separated by dashes.
pub proof fn law_uuid_shape(seed: Seq<char>)
    ensures
        uuid_text(seed_hash(seed)).len() == 36,
        uuid_text(seed_hash(seed))[8] == '-',
        uuid_text(seed_hash(seed))[13] == '-',
        uuid_text(seed_hash(seed))[18] == '-',
        uuid_text(seed_hash(seed))[23] == '-',
{
    let h = seed_hash(seed);
    reveal_with_fuel(pow_nat, 13);
    assert(pow_nat(16, 4) == 0x1_0000);
    assert(pow_nat(16, 8) == 0x1_0000_0000);
    assert(pow_nat(16, 12) == 0x1_0000_0000_0000);
    assert((h & 0xFFFF_FFFF) < 0x1_0000_0000u64) by (bit_vector);
    assert(((h >> 32u64) & 0xFFFF) < 0x1_0000u64) by (bit_vector);
    assert((0x4000u64 | ((h >> 48u64) & 0x0FFF)) < 0x1_0000u64) by (bit_vector);
    assert((0x8000u64 | ((h >> 60u64) & 0x3FFF)) < 0x1_0000u64) by (bit_vector);
    assert(((h ^ 0x5555_5555_5555_5555u64) & 0xFFFF_FFFF_FFFF) < 0x1_0000_0000_0000u64) by (bit_vector);
    lemma_hex_padded_len((h & 0xFFFF_FFFF) as nat, 8);
    lemma_hex_padded_len(((h >> 32u64) & 0xFFFF) as nat, 4);
    lemma_hex_padded_len((0x4000u64 | ((h >> 48u64) & 0x0FFF)) as nat, 4);
    lemma_hex_padded_len((0x8000u64 | ((h >> 60u64) & 0x3FFF)) as nat, 4);
    lemma_hex_padded_len(((h ^ 0x5555_5555_5555_5555u64) & 0xFFFF_FFFF_FFFF) as nat, 12);
}

} // verus!

verus! {

// ---------------------------------------------------------------------------
// Base64 decoding of embedded resources
// ---------------------------------------------------------------------------

/// The 6-bit value of a base64 alphabet character.
pub open spec fn b64_sextet(c: char) -> Option<u32> {
    let u = c as u32;
    if 65 <= u <= 90 {
        Some((u - 65) as u32)
    } else if 97 <= u <= 122 {
        Some((u - 97 + 26) as u32)
    } else if 48 <= u <= 57 {
        Some((u - 48 + 52) as u32)
    } else if u == 43 {
        Some(62)
    } else if u == 47 {
        Some(63)
    } else {
        None
    }
}

/// Decoder state after reading `s`: the bytes completed so far, the
/// pending bits (`acc`, of which there are `bits`), or `None` once a
/// character outside the alphabet, `'='` and whitespace was seen.
pub open spec fn b64_state(s: Seq<char>) -> Option<(Seq<u8>, u32, u32)>
    decreases s.len(),
{
    if s.len() == 0 {
        Some((seq![], 0u32, 0u32))
    } else {
        match b64_state(s.drop_last()) {
            None => None,
            Some((out, acc, bits)) => {
                let c = s.last();
                if char_is_whitespace(c) || c == '=' {
                    Some((out, acc, bits))
                } else {
                    match b64_sextet(c) {
                        None => None,
                        Some(v) => {
                            let acc2 = ((acc << 6u32) | v) as u32;
                            if bits + 6 >= 8 {
                                let b = (bits + 6 - 8) as u32;
                                Some((out.push((acc2 >> b) as u8), acc2 & ((1u32 << b) - 1) as u32, b))
                            } else {
                                Some((out, acc2, (bits + 6) as u32))
                            }
                        },
                    }
                }
            },
        }
    }
}

/// The bytes that base64 text `s` decodes to: whitespace and `'='` are
/// skipped, each alphabet character contributes 6 bits, every full 8 bits
/// form a byte and leftover bits are dropped; `None` if another character
/// occurs.
pub open spec fn b64_decode(s: Seq<char>) -> Option<Seq<u8>> {
    match b64_state(s) {
        Some((out, _, _)) => Some(out),
        None => None,
    }
}

proof fn lemma_b64_step(buffer: u32, acc: u32, bits: u32, v: u32)
    requires
        bits < 8,
        v < 64,
        acc < (1u32 << bits),
        buffer & ((1u32 << bits) - 1) as u32 == acc,
    ensures
        (((buffer << 6u32) | v) & ((1u32 << (bits + 6) as u32) - 1) as u32) == ((acc << 6u32) | v),
        ((acc << 6u32) | v) < (1u32 << (bits + 6) as u32),
        bits + 6 >= 8 ==> ((((buffer << 6u32) | v) >> (bits - 2) as u32) as u8 == (((acc << 6u32)
            | v) >> (bits - 2) as u32) as u8 && (((buffer << 6u32) | v) & ((1u32 << (bits
            - 2) as u32) - 1) as u32) == (((acc << 6u32) | v) & ((1u32 << (bits - 2) as u32)
            - 1) as u32) && (((acc << 6u32) | v) & ((1u32 << (bits - 2) as u32) - 1) as u32) < (1u32
            << (bits - 2) as u32)),
{
    assert(bits < 8 && v < 64 && acc < (1u32 << bits) && buffer & ((1u32 << bits) - 1) as u32 == acc
        ==> (((buffer << 6u32) | v) & ((1u32 << (bits + 6) as u32) - 1) as u32) == ((acc << 6u32)
        | v) && ((acc << 6u32) | v) < (1u32 << (bits + 6) as u32)) by (bit_vector);
    assert(bits < 8 && v < 64 && acc < (1u32 << bits) && buffer & ((1u32 << bits) - 1) as u32 == acc
        && bits + 6 >= 8 ==> ((((buffer << 6u32) | v) >> (bits - 2) as u32) as u8 == (((acc
        << 6u32) | v) >> (bits - 2) as u32) as u8 && (((buffer << 6u32) | v) & ((1u32 << (bits
        - 2) as u32) - 1) as u32) == (((acc << 6u32) | v) & ((1u32 << (bits - 2) as u32)
        - 1) as u32) && (((acc << 6u32) | v) & ((1u32 << (bits - 2) as u32) - 1) as u32) < (1u32
        << (bits - 2) as u32))) by (bit_vector);
}

fn sextet_of(c: char) -> (r: Option<u32>)
    ensures
        r == b64_sextet(c),
{
    let u = c as u32;
    if 65 <= u && u <= 90 {
        Some(u - 65)
    } else if 97 <= u && u <= 122 {
        Some(u - 97 + 26)
    } else if 48 <= u && u <= 57 {
        Some(u - 48 + 52)
    } else if u == 43 {
        Some(62)
    } else if u == 47 {
        Some(63)
    } else {
        None
    }
}

/// The base64 alphabet character of the 6-bit value `v`.
pub open spec fn b64_char(v: u32) -> char {
    if v < 26 {
        (65 + v) as char
    } else if v < 52 {
        (97 + v - 26) as char
    } else if v < 62 {
        (48 + v - 52) as char
    } else if v == 62 {
        '+'
    } else {
        '/'
    }
}

proof fn lemma_b64_char(v: u32)
    requires
        v < 64,
    ensures
        b64_sextet(b64_char(v)) == Some(v),
        b64_char(v) != '=',
{
}

/// The sextets of three bytes.
pub open spec fn b64_sextets(b0: u8, b1: u8, b2: u8) -> (u32, u32, u32, u32) {
    let x0 = b0 as u32;
    let x1 = b1 as u32;
    let x2 = b2 as u32;
    (x0 >> 2u32, ((x0 & 3u32) << 4u32) | (x1 >> 4u32), ((x1 & 15u32) << 2u32) | (x2 >> 6u32), x2 & 63u32)
}

/// Standard base64 with padding: each three bytes become four characters,
/// and a final one or two bytes become two or three characters padded
/// with `=` to four.
pub open spec fn b64_encode(b: Seq<u8>) -> Seq<char>
    decreases b.len(),
{
    let n = b.len();
    if n == 0 {
        Seq::empty()
    } else if n % 3 == 0 {
        let (v1, v2, v3, v4) = b64_sextets(b[n - 3], b[n - 2], b[n - 1]);
        b64_encode(b.take(n - 3)) + seq![b64_char(v1), b64_char(v2), b64_char(v3), b64_char(v4)]
    } else if n % 3 == 1 {
        let (v1, v2, _, _) = b64_sextets(b[n - 1], 0, 0);
        b64_encode(b.take(n - 1)) + seq![b64_char(v1), b64_char(v2), '=', '=']
    } else {
        let (v1, v2, v3, _) = b64_sextets(b[n - 2], b[n - 1], 0);
        b64_encode(b.take(n - 2)) + seq![b64_char(v1), b64_char(v2), b64_char(v3), '=']
    }
}

/// The decoder state after one more character.
proof fn lemma_b64_push(s: Seq<char>, c: char)
    ensures
        b64_state(s.push(c)) == match b64_state(s) {
            None => None,
            Some((out, acc, bits)) => if char_is_whitespace(c) || c == '=' {
                Some((out, acc, bits))
            } else {
                match b64_sextet(c) {
                    None => None,
                    Some(v) => {
                        let acc2 = ((acc << 6u32) | v) as u32;
                        if bits + 6 >= 8 {
                            let b = (bits + 6 - 8) as u32;
                            Some((out.push((acc2 >> b) as u8), acc2 & ((1u32 << b) - 1) as u32, b))
                        } else {
                            Some((out, acc2, (bits + 6) as u32))
                        }
                    },
                }
            },
        },
{
    assert(s.push(c).drop_last() =~= s);
}

/// The bit facts of decoding three bytes' sextets.
proof fn lemma_b64_group_bits(b0: u8, b1: u8, b2: u8)
    ensures
        ({
            let (v1, v2, v3, v4) = b64_sextets(b0, b1, b2);
            let x1 = b1 as u32;
            let x2 = b2 as u32;
            &&& v1 < 64 && v2 < 64 && v3 < 64 && v4 < 64
            &&& ((0u32 << 6u32) | v1) == v1
            &&& ((((v1 << 6u32) | v2) >> 4u32) as u8) == b0
            &&& (((v1 << 6u32) | v2) & ((1u32 << 4u32) - 1) as u32) == x1 >> 4u32
            &&& (((((x1 >> 4u32) << 6u32) | v3) >> 2u32) as u8) == b1
            &&& ((((x1 >> 4u32) << 6u32) | v3) & ((1u32 << 2u32) - 1) as u32) == x2 >> 6u32
            &&& (((((x2 >> 6u32) << 6u32) | v4) >> 0u32) as u8) == b2
            &&& ((((x2 >> 6u32) << 6u32) | v4) & ((1u32 << 0u32) - 1) as u32) == 0
        }),
{
    let x0 = b0 as u32;
    let x1 = b1 as u32;
    let x2 = b2 as u32;
    assert((x0 >> 2u32) < 64 && (((x0 & 3u32) << 4u32) | (x1 >> 4u32)) < 64 && (((x1 & 15u32) << 2u32) | (
    x2 >> 6u32)) < 64 && (x2 & 63u32) < 64) by (bit_vector)
        requires
            x0 < 256,
            x1 < 256,
            x2 < 256,
    ;
    assert(((0u32 << 6u32) | (x0 >> 2u32)) == (x0 >> 2u32)) by (bit_vector);
    assert(((((x0 >> 2u32) << 6u32) | (((x0 & 3u32) << 4u32) | (x1 >> 4u32))) >> 4u32) as u8 == b0
        && ((((x0 >> 2u32) << 6u32) | (((x0 & 3u32) << 4u32) | (x1 >> 4u32))) & ((1u32 << 4u32) - 1) as u32)
        == x1 >> 4u32) by (bit_vector)
        requires
            x0 == b0 as u32,
            x1 < 256,
    ;
    assert(((((x1 >> 4u32) << 6u32) | (((x1 & 15u32) << 2u32) | (x2 >> 6u32))) >> 2u32) as u8 == b1 && ((((
    x1 >> 4u32) << 6u32) | (((x1 & 15u32) << 2u32) | (x2 >> 6u32))) & ((1u32 << 2u32) - 1) as u32) == x2
        >> 6u32) by (bit_vector)
        requires
            x1 == b1 as u32,
            x2 < 256,
    ;
    assert(((((x2 >> 6u32) << 6u32) | (x2 & 63u32)) >> 0u32) as u8 == b2 && ((((x2 >> 6u32) << 6u32) | (x2
        & 63u32)) & ((1u32 << 0u32) - 1) as u32) == 0) by (bit_vector)
        requires
            x2 == b2 as u32,
    ;
}

/// No base64 alphabet character is whitespace.
proof fn lemma_alphabet_not_whitespace()
    ensures
        forall|c: char| #[trigger] b64_sextet(c) is Some ==> !char_is_whitespace(c),
{
}

/// A character that base64 text may hold: an alphabet character, `'='`
/// or whitespace.
pub open spec fn b64_admissible(c: char) -> bool {
    char_is_whitespace(c) || c == '=' || b64_sextet(c) is Some
}

/// Decoding fails exactly when the text holds a character that is neither
/// in the base64 alphabet nor `'='` nor whitespace.
pub proof fn law_b64_none_iff_foreign_char(s: Seq<char>)
    ensures
        b64_decode(s) is None <==> exists|i: int| 0 <= i < s.len() && !b64_admissible(#[trigger] s[i]),
    decreases s.len(),
{
    if s.len() > 0 {
        let p = s.drop_last();
        law_b64_none_iff_foreign_char(p);
        assert forall|i: int| 0 <= i < p.len() implies #[trigger] p[i] == s[i] by {}
        if exists|i: int| 0 <= i < p.len() && !b64_admissible(#[trigger] p[i]) {
            let i = choose|i: int| 0 <= i < p.len() && !b64_admissible(#[trigger] p[i]);
            assert(!b64_admissible(s[i]));
        } else if !b64_admissible(s.last()) {
            assert(!b64_admissible(s[s.len() - 1]));
        } else {
            assert forall|i: int| 0 <= i < s.len() implies b64_admissible(#[trigger] s[i]) by {
                if i < p.len() {
                    assert(b64_admissible(p[i]));
                }
            }
        }
    }
}

/// Padded base64 decodes back to the bytes it encodes.
pub proof fn law_b64_round_trip(b: Seq<u8>)
    ensures
        b64_decode(b64_encode(b)) == Some(b),
{
    lemma_alphabet_not_whitespace();
    lemma_b64_full(b.take(b.len() - b.len() % 3));
    let n = b.len();
    let m = n - n % 3;
    let e = b64_encode(b.take(m));
    if n % 3 == 0 {
        assert(b.take(m) =~= b);
    } else if n % 3 == 1 {
        assert(b.take(n - 1) =~= b.take(m));
        let (v1, v2, v3, v4) = b64_sextets(b[n - 1], 0, 0);
        lemma_b64_group_bits(b[n - 1], 0, 0);
        lemma_b64_char(v1);
        lemma_b64_char(v2);
        let c1 = b64_char(v1);
        let c2 = b64_char(v2);
        assert(b64_encode(b) == e.push(c1).push(c2).push('=').push('='));
        lemma_b64_push(e, c1);
        lemma_b64_push(e.push(c1), c2);
        lemma_b64_push(e.push(c1).push(c2), '=');
        lemma_b64_push(e.push(c1).push(c2).push('='), '=');
        assert(b.take(m).push(b[n - 1]) =~= b);
    } else {
        assert(b.take(n - 2) =~= b.take(m));
        let (v1, v2, v3, v4) = b64_sextets(b[n - 2], b[n - 1], 0);
        lemma_b64_group_bits(b[n - 2], b[n - 1], 0);
        lemma_b64_char(v1);
        lemma_b64_char(v2);
        lemma_b64_char(v3);
        let c1 = b64_char(v1);
        let c2 = b64_char(v2);
        let c3 = b64_char(v3);
        assert(b64_encode(b) == e.push(c1).push(c2).push(c3).push('='));
        lemma_b64_push(e, c1);
        lemma_b64_push(e.push(c1), c2);
        lemma_b64_push(e.push(c1).push(c2), c3);
        lemma_b64_push(e.push(c1).push(c2).push(c3), '=');
        assert(b.take(m).push(b[n - 2]).push(b[n - 1]) =~= b);
    }
}

/// Whole groups of three bytes decode back to those bytes, with no bits
/// pending.
proof fn lemma_b64_full(b: Seq<u8>)
    requires
        b.len() % 3 == 0,
        forall|c: char| #[trigger] b64_sextet(c) is Some ==> !char_is_whitespace(c),
    ensures
        b64_state(b64_encode(b)) == Some((b, 0u32, 0u32)),
    decreases b.len(),
{
    let n = b.len();
    if n == 0 {
        assert(b64_encode(b) =~= Seq::<char>::empty());
        assert(b =~= Seq::<u8>::empty());
    } else {
        let p = b.take(n - 3);
        lemma_b64_full(p);
        let e = b64_encode(p);
        let (v1, v2, v3, v4) = b64_sextets(b[n - 3], b[n - 2], b[n - 1]);
        lemma_b64_group_bits(b[n - 3], b[n - 2], b[n - 1]);
        lemma_b64_char(v1);
        lemma_b64_char(v2);
        lemma_b64_char(v3);
        lemma_b64_char(v4);
        let c1 = b64_char(v1);
        let c2 = b64_char(v2);
        let c3 = b64_char(v3);
        let c4 = b64_char(v4);
        assert(b64_encode(b) =~= e.push(c1).push(c2).push(c3).push(c4));
        lemma_b64_push(e, c1);
        lemma_b64_push(e.push(c1), c2);
        lemma_b64_push(e.push(c1).push(c2), c3);
        lemma_b64_push(e.push(c1).push(c2).push(c3), c4);
        assert(p.push(b[n - 3]).push(b[n - 2]).push(b[n - 1]) =~= b);
    }
}

/// Decodes base64 `input`, ignoring whitespace and padding; `None` when
/// `input` holds another character outside the base64 alphabet.
pub fn decode_base64(input: &str) -> (r: Option<Vec<u8>>)
    ensures
        match r {
            Some(v) => b64_decode(input@) == Some(v@),
            None => b64_decode(input@) is None,
        },
{
    let cs = to_chars(input);
    let mut bytes: Vec<u8> = Vec::new();
    let mut buffer: u32 = 0;
    let mut bits: u32 = 0;
    let mut i: usize = 0;
    assert(0u32 & ((1u32 << 0u32) - 1) as u32 == 0u32) by (bit_vector);
    assert(0u32 < (1u32 << 0u32)) by (bit_vector);
    while i < cs.len()
        invariant
            cs@ == input@,
            i <= cs@.len(),
            bits < 8,
            b64_state(cs@.subrange(0, i as int)) matches Some((out, acc, bs)) && out == bytes@
                && bs == bits && acc < (1u32 << bits) && buffer & ((1u32 << bits) - 1) as u32
                == acc,
        decreases cs@.len() - i,
    {
        let c = cs[i];
        let ghost pre = cs@.subrange(0, i as int);
        let ghost cur = cs@.subrange(0, i + 1);
        assert(cur.drop_last() =~= pre);
        assert(cur.last() == c);
        if is_whitespace(c) || c == '=' {
        } else {
            match sextet_of(c) {
                None => {
                    proof {
                        lemma_b64_none(cs@, i as nat);
                    }
                    return None;
                },
                Some(v) => {
                    let ghost acc = b64_state(pre).unwrap().1;
                    proof {
                        lemma_b64_step(buffer, acc, bits, v);
                    }
                    buffer = (buffer << 6u32) | v;
                    bits = bits + 6;
                    if bits >= 8 {
                        bits = bits - 8;
                        bytes.push((buffer >> bits) as u8);
                    }
                },
            }
        }
        i = i + 1;
    }
    assert(cs@.subrange(0, cs@.len() as int) =~= input@);
    Some(bytes)
}

proof fn lemma_b64_none(s: Seq<char>, i: nat)
    requires
        i < s.len(),
        b64_state(s.subrange(0, i + 1 as int)) is None,
    ensures
        b64_state(s) is None,
    decreases s.len() - i,
{
    if i + 1 < s.len() {
        let t = s.subrange(0, i + 2 as int);
        assert(t.drop_last() =~= s.subrange(0, i + 1 as int));
        lemma_b64_none(s, i + 1);
    } else {
        assert(s.subrange(0, i + 1 as int) =~= s);
    }
}

} // verus!

verus! {

// ---------------------------------------------------------------------------
// Signature extraction from emitted C code
// ---------------------------------------------------------------------------

/// `s` without leading whitespace.
pub open spec fn trim_start(s: Seq<char>) -> Seq<char>
    decreases s.len(),
{
    if s.len() > 0 && char_is_whitespace(s[0]) {
        trim_start(s.drop_first())
    } else {
        s
    }
}

/// `s` without trailing whitespace.
pub open spec fn trim_end(s: Seq<char>) -> Seq<char>
    decreases s.len(),
{
    if s.len() > 0 && char_is_whitespace(s.last()) {
        trim_end(s.drop_last())
    } else {
        s
    }
}

/// `s` without leading and trailing whitespace.
pub open spec fn trim(s: Seq<char>) -> Seq<char> {
    trim_end(trim_start(s))
}

/// `s` without any trailing run of `c`.
pub open spec fn trim_end_char(s: Seq<char>, c: char) -> Seq<char>
    decreases s.len(),
{
    if s.len() > 0 && s.last() == c {
        trim_end_char(s.drop_last(), c)
    } else {
        s
    }
}

/// A line without its trailing carriage return, if any.
pub open spec fn strip_cr(l: Seq<char>) -> Seq<char> {
    if l.len() > 0 && l.last() == '\r' {
        l.drop_last()
    } else {
        l
    }
}

/// Completed lines and the current partial line after reading `k`
/// characters of `s`.
pub open spec fn lines_state(s: Seq<char>, k: nat) -> (Seq<Seq<char>>, Seq<char>)
    decreases k,
{
    if k == 0 {
        (seq![], seq![])
    } else {
        let (done, cur) = lines_state(s, (k - 1) as nat);
        if s[k - 1] == '\n' {
            (done.push(strip_cr(cur)), seq![])
        } else {
            (done, cur.push(s[k - 1]))
        }
    }
}

/// The lines of `s` as `str::lines` yields them: split at `'\n'`, a
/// `'\r'` before the `'\n'` dropped, and no empty line after a final `'\n'`.
pub open spec fn lines_of(s: Seq<char>) -> Seq<Seq<char>> {
    let (done, cur) = lines_state(s, s.len());
    if cur.len() > 0 {
        done.push(cur)
    } else {
        done
    }
}

/// The line looks like a function definition: after trimming it is not
/// empty, not a comment, not a preprocessor line, and it holds a `'('`.
pub open spec fn is_signature_line(l: Seq<char>) -> bool {
    let t = trim(l);
    &&& !(t.len() == 0 || starts_with(t, "//"@) || starts_with(t, "/*"@))
    &&& t.contains('(')
    &&& !starts_with(t, "#"@)
}

/// The first line from number `i` on that looks like a function definition.
pub open spec fn first_signature_line(ls: Seq<Seq<char>>, i: int) -> Option<Seq<char>>
    decreases ls.len() - i,
{
    if i < 0 || i >= ls.len() {
        None
    } else if is_signature_line(ls[i]) {
        Some(ls[i])
    } else {
        first_signature_line(ls, i + 1)
    }
}

pub const SIG_FALLBACK_HEAD: &'static str = "void* ";
pub const SIG_FALLBACK_MID: &'static str = "(void) /* 0x";
pub const SIG_FALLBACK_TAIL: &'static str = " */";

/// The signature recovered from `code`, or a `void*` declaration named
/// `func_name` that records `addr` when no line qualifies.
pub open spec fn signature_text(code: Seq<char>, func_name: Seq<char>, addr: u64) -> Seq<char> {
    match first_signature_line(lines_of(code), 0) {
        Some(l) => trim(trim_end_char(trim(l), '{')),
        None => SIG_FALLBACK_HEAD@ + func_name + SIG_FALLBACK_MID@ + hex_lower(addr as nat)
            + SIG_FALLBACK_TAIL@,
    }
}

fn copy_range(v: &Vec<char>, lo: usize, hi: usize) -> (r: Vec<char>)
    requires
        lo <= hi <= v@.len(),
    ensures
        r@ == v@.subrange(lo as int, hi as int),
{
    let mut r: Vec<char> = Vec::new();
    let mut i = lo;
    while i < hi
        invariant
            lo <= i <= hi,
            hi <= v@.len(),
            r@ == v@.subrange(lo as int, i as int),
        decreases hi - i,
    {
        r.push(v[i]);
        assert(v@.subrange(lo as int, i + 1) =~= v@.subrange(lo as int, i as int).push(v@[i as int]));
        i = i + 1;
    }
    r
}

fn trim_chars(v: &Vec<char>) -> (r: Vec<char>)
    ensures
        r@ == trim(v@),
{
    let n = v.len();
    let mut lo: usize = 0;
    assert(v@.subrange(0, n as int) =~= v@);
    while lo < n && is_whitespace(v[lo])
        invariant
            n == v@.len(),
            lo <= n,
            trim_start(v@) == trim_start(v@.subrange(lo as int, n as int)),
        decreases n - lo,
    {
        assert(v@.subrange(lo as int, n as int).drop_first() =~= v@.subrange(lo + 1, n as int));
        lo = lo + 1;
    }
    assert(trim_start(v@) =~= v@.subrange(lo as int, n as int));
    let mut hi: usize = n;
    while hi > lo && is_whitespace(v[hi - 1])
        invariant
            n == v@.len(),
            lo <= hi <= n,
            trim_end(v@.subrange(lo as int, n as int)) == trim_end(v@.subrange(lo as int, hi as int)),
        decreases hi - lo,
    {
        assert(v@.subrange(lo as int, hi as int).drop_last() =~= v@.subrange(lo as int, hi - 1));
        hi = hi - 1;
    }
    copy_range(v, lo, hi)
}

fn trim_end_char_chars(v: &Vec<char>, c: char) -> (r: Vec<char>)
    ensures
        r@ == trim_end_char(v@, c),
{
    let mut hi: usize = v.len();
    assert(v@.subrange(0, v@.len() as int) =~= v@);
    while hi > 0 && v[hi - 1] == c
        invariant
            hi <= v@.len(),
            trim_end_char(v@, c) == trim_end_char(v@.subrange(0, hi as int), c),
        decreases hi,
    {
        assert(v@.subrange(0, hi as int).drop_last() =~= v@.subrange(0, hi - 1));
        hi = hi - 1;
    }
    assert(v@.subrange(0, v@.len() as int) =~= v@);
    copy_range(v, 0, hi)
}

fn chars_contain(v: &Vec<char>, c: char) -> (r: bool)
    ensures
        r == v@.contains(c),
{
    let mut i: usize = 0;
    while i < v.len()
        invariant
            i <= v@.len(),
            forall|k: int| 0 <= k < i ==> v@[k] != c,
        decreases v@.len() - i,
    {
        if v[i] == c {
            return true;
        }
        i = i + 1;
    }
    false
}

pub(crate) fn split_lines(cs: &Vec<char>) -> (r: Vec<Vec<char>>)
    ensures
        r@.map_values(|l: Vec<char>| l@) == lines_of(cs@),
{
    let mut done: Vec<Vec<char>> = Vec::new();
    let mut cur: Vec<char> = Vec::new();
    let mut i: usize = 0;
    while i < cs.len()
        invariant
            i <= cs@.len(),
            lines_state(cs@, i as nat) == (done@.map_values(|l: Vec<char>| l@), cur@),
        decreases cs@.len() - i,
    {
        let c = cs[i];
        if c == '\n' {
            let line = if cur.len() > 0 && cur[cur.len() - 1] == '\r' {
                copy_range(&cur, 0, cur.len() - 1)
            } else {
                copy_range(&cur, 0, cur.len())
            };
            assert(cur@.subrange(0, cur@.len() as int) =~= cur@);
            let ghost before = done@;
            done.push(line);
            assert(done@.map_values(|l: Vec<char>| l@) =~= before.map_values(|l: Vec<char>| l@).push(
                strip_cr(cur@),
            ));
            cur = Vec::new();
        } else {
            cur.push(c);
        }
        i = i + 1;
    }
    if cur.len() > 0 {
        let ghost before = done@;
        done.push(cur);
        assert(done@.map_values(|l: Vec<char>| l@) =~= before.map_values(|l: Vec<char>| l@).push(
            lines_of(cs@).last(),
        ));
    }
    done
}

/// Extracts the function signature line from emitted C code: the first
/// line that, trimmed, is not empty, not a comment or preprocessor line and
/// holds a `'('`, with a trailing `'{'` run and whitespace removed. Falls
/// back to `void* func_name(void) /* 0x.. */`.
pub fn extract_signature(code: &str, func_name: &str, addr: u64) -> (r: String)
    ensures
        r@ == signature_text(code@, func_name@, addr),
{
    let cs = to_chars(code);
    let lines = split_lines(&cs);
    let ghost ls = lines@.map_values(|l: Vec<char>| l@);
    let mut i: usize = 0;
    while i < lines.len()
        invariant
            cs@ == code@,
            ls == lines_of(cs@),
            ls == lines@.map_values(|l: Vec<char>| l@),
            i <= lines@.len(),
            first_signature_line(ls, 0) == first_signature_line(ls, i as int),
        decreases lines@.len() - i,
    {
        let t = trim_chars(&lines[i]);
        assert(ls[i as int] == lines@[i as int]@);
        let skip = t.len() == 0 || chars_start_with(&t, "//") || chars_start_with(&t, "/*");
        if !skip && chars_contain(&t, '(') && !chars_start_with(&t, "#") {
            let body = trim_end_char_chars(&t, '{');
            let sig = trim_chars(&body);
            let mut s = String::new();
            push_chars(&mut s, &sig);
            assert(s@ =~= signature_text(code@, func_name@, addr));
            return s;
        }
        i = i + 1;
    }
    let mut s = String::new();
    s.append(SIG_FALLBACK_HEAD);
    s.append(func_name);
    s.append(SIG_FALLBACK_MID);
    push_hex_lower(&mut s, addr);
    s.append(SIG_FALLBACK_TAIL);
    assert(s@ =~= signature_text(code@, func_name@, addr));
    s
}

} // verus!
