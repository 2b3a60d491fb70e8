use metal_infer::shader::shader_source;

const PRELUDE: &str = "#include <metal_simdgroup_matrix>\nusing namespace metal;\n";
const DIRECTIVE: &str = "#include \"prelude.metal\"\n";

/// Nine families of kernels, each with the directive that reads the prelude.
fn families() -> Vec<String> {
    [4, 5, 11, 2, 2, 2, 2, 4, 1]
        .iter()
        .enumerate()
        .map(|(family, kernels)| {
            let mut source = DIRECTIVE.to_owned();
            for kernel in 0..*kernels {
                source.push_str(&format!("\nkernel void family{family}_kernel{kernel}() {{}}\n"));
            }
            source
        })
        .collect()
}

#[test]
fn shader_source_is_self_contained() {
    let source = shader_source(PRELUDE, DIRECTIVE, &families());
    assert!(
        source.starts_with("#include <metal_simdgroup_matrix>\n"),
        "the prelude must open the shader source"
    );
    assert!(
        !source.contains("#include \""),
        "local includes must be resolved before compilation"
    );
    assert_eq!(
        source.matches("\nkernel void").count(),
        33,
        "every kernel must be part of the shader source"
    );
}

#[test]
fn a_family_without_the_directive_is_taken_whole() {
    let source = shader_source("p", "d\n", &vec!["d\na".into(), "b".into(), "xd\n".into()]);
    assert_eq!(source, "pabxd\n");
    assert_eq!(shader_source("p", "d", &vec![]), "p");
}
