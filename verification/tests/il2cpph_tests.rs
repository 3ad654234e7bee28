use acl_offsetgen::il2cpph::{parse_member, HeaderLayout};
use acl_offsetgen::pe::Arch;

/// Verbatim excerpt of the header Il2CppDumper 6.7.46 writes for Among Us
/// 2026.8.18 (metadata v31), trimmed to the structs that matter.
const REAL_HEADER: &str = r#"
struct Il2CppType
{
void* data;
unsigned int bits;
};

struct Il2CppClass;

struct Il2CppObject
{
Il2CppClass *klass;
void *monitor;
};

struct Il2CppRuntimeInterfaceOffsetPair
{
Il2CppClass* interfaceType;
int32_t offset;
};
struct Il2CppClass_1
{
void* image;
void* gc_desc;
const char* name;
const char* namespaze;
Il2CppType byval_arg;
Il2CppType this_arg;
Il2CppClass* element_class;
Il2CppClass* castClass;
Il2CppClass* declaringType;
Il2CppClass* parent;
void *generic_class;
void* typeMetadataHandle;
void* interopData;
Il2CppClass* klass;
void* fields;
void* events;
void* properties;
void* methods;
Il2CppClass** nestedTypes;
Il2CppClass** implementedInterfaces;
Il2CppRuntimeInterfaceOffsetPair* interfaceOffsets;
};

struct Il2CppClass_2
{
Il2CppClass** typeHierarchy;
void *unity_user_data;
uint32_t initializationExceptionGCHandle;
};

struct Il2CppClass
{
Il2CppClass_1 _1;
void* static_fields;
Il2CppRGCTXData* rgctx_data;
Il2CppClass_2 _2;
VirtualInvokeData vtable[255];
};
"#;

#[test]
fn derives_the_x86_static_fields_offset() {
    let layout = HeaderLayout::parse(REAL_HEADER, Arch::X86);
    // 19 pointers (4 before the two Il2CppTypes, 15 after) at 4 bytes, plus
    // two 8-byte Il2CppType values = 92. This is the number the working
    // hand-written x86 offsets use.
    assert_eq!(layout.static_fields_offset().expect("offset"), 92);
}

#[test]
fn derives_the_x64_static_fields_offset() {
    let layout = HeaderLayout::parse(REAL_HEADER, Arch::X64);
    // Same 19 pointers at 8 bytes, plus two Il2CppType values padded to 16 = 184.
    assert_eq!(layout.static_fields_offset().expect("offset"), 184);
}

#[test]
fn pointer_star_binding_does_not_matter() {
    assert_eq!(
        parse_member("Il2CppClass *klass;"),
        Some(("Il2CppClass*".into(), "klass".into()))
    );
    assert_eq!(
        parse_member("Il2CppClass* klass;"),
        Some(("Il2CppClass*".into(), "klass".into()))
    );
    assert_eq!(
        parse_member("Il2CppClass** nestedTypes;"),
        Some(("Il2CppClass**".into(), "nestedTypes".into()))
    );
}

#[test]
fn arrays_and_functions_are_skipped() {
    assert_eq!(parse_member("VirtualInvokeData vtable[255];"), None);
    assert_eq!(parse_member("void (*invoke)(void);"), None);
}

#[test]
fn a_header_without_the_struct_fails_loudly() {
    let layout = HeaderLayout::parse("struct Something { int x; };", Arch::X64);
    assert!(layout.static_fields_offset().is_err());
}

#[test]
fn an_implausible_result_is_rejected() {
    // static_fields as the very first member would be offset 0, far below
    // the plausible band -- better to stop than to emit chains of zeroes.
    let header = "struct Il2CppClass\n{\n    void* static_fields;\n};";
    let layout = HeaderLayout::parse(header, Arch::X64);
    assert!(layout.static_fields_offset().is_err());
}

#[test]
fn stars_bind_either_way_in_types_with_spaces() {
    for line in ["unsigned int *bits;", "unsigned int* bits;", "unsigned int *bits; // both"] {
        assert_eq!(parse_member(line), Some(("unsigned int*".into(), "bits".into())));
    }
    for line in ["const struct Foo **all;", "const struct Foo** all;"] {
        assert_eq!(parse_member(line), Some(("struct Foo**".into(), "all".into())));
    }
}

#[test]
fn forward_declarations_and_sides_of_stars_do_not_count() {
    let moved = REAL_HEADER
        .replace("void* ", "void *")
        .replace("Il2CppClass* ", "Il2CppClass *")
        .replace("const char* ", "const char *");
    assert_ne!(moved, REAL_HEADER);
    let without = REAL_HEADER.replace("struct Il2CppClass;\n", "");
    assert_ne!(without, REAL_HEADER);
    let crowded = REAL_HEADER
        .replace("Il2CppType byval_arg;", "struct Il2CppType;\nIl2CppType byval_arg;\nunion Any;")
        .replace("void* static_fields;", "  struct Il2CppClass;\r\n  void *static_fields;");
    assert_ne!(crowded, REAL_HEADER);
    for header in [moved.as_str(), without.as_str(), crowded.as_str()] {
        for (arch, offset) in [(Arch::X86, 92), (Arch::X64, 184)] {
            let layout = HeaderLayout::parse(header, arch);
            assert_eq!(layout.static_fields_offset().expect("offset"), offset);
        }
    }
}
