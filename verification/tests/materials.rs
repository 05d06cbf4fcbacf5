use asml_runtime::materials::{
    Context, FunctionDecl, ProjectManifest, ProjectSource, ServiceManifest,
};

fn sample_project() -> ProjectSource {
    ProjectSource { name: "demo".to_string(), dir: "/projects/demo".to_string() }
}

#[test]
fn from_project_flattens_services_and_functions() {
    let manifest = ProjectManifest {
        project_name: "demo-manifest".to_string(),
        services: vec![
            ServiceManifest {
                name: "api".to_string(),
                provider: "aws-lambda".to_string(),
                functions: vec![
                    FunctionDecl { name: "list".to_string(), handler_name: None },
                    FunctionDecl {
                        name: "create".to_string(),
                        handler_name: Some("create_handler".to_string()),
                    },
                ],
                iomods: vec!["akkoro.std.http".to_string()],
            },
            ServiceManifest {
                name: "worker".to_string(),
                provider: "k8s".to_string(),
                functions: vec![FunctionDecl { name: "crunch".to_string(), handler_name: None }],
                iomods: vec![],
            },
        ],
    };

    let ctx = Context::from_project(&sample_project(), manifest).expect("context builds");

    assert_eq!(ctx.project.name, "demo-manifest");
    assert_eq!(ctx.project.path, "/projects/demo");

    assert_eq!(ctx.services.len(), 2);
    assert_eq!(ctx.services[0].name, "api");
    assert_eq!(ctx.services[0].provider, "aws-lambda");
    assert_eq!(ctx.services[0].project_name, "demo");
    assert_eq!(ctx.services[1].name, "worker");
    assert_eq!(ctx.services[1].provider, "k8s");
    assert_eq!(ctx.services[1].project_name, "demo");

    assert_eq!(ctx.functions.len(), 3);
    assert_eq!(ctx.functions[0].name, "list");
    assert_eq!(ctx.functions[0].provider, "aws-lambda");
    assert_eq!(ctx.functions[0].service_name, "api");
    assert_eq!(ctx.functions[0].handler_name, "handler");
    assert_eq!(ctx.functions[1].name, "create");
    assert_eq!(ctx.functions[1].handler_name, "create_handler");
    assert_eq!(ctx.functions[2].name, "crunch");
    assert_eq!(ctx.functions[2].provider, "k8s");
    assert_eq!(ctx.functions[2].service_name, "worker");
    assert_eq!(ctx.functions[2].handler_name, "handler");

    assert!(ctx.authorizers.is_empty());
}

#[test]
fn from_project_with_no_services_is_empty() {
    let manifest = ProjectManifest { project_name: "empty".to_string(), services: vec![] };
    let ctx = Context::from_project(&sample_project(), manifest).expect("context builds");
    assert!(ctx.services.is_empty());
    assert!(ctx.functions.is_empty());
    assert!(ctx.authorizers.is_empty());
    assert_eq!(ctx.project.name, "empty");
}
