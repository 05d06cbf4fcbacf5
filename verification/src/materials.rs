//! Deployment-material context: flattens a project's parsed service
//! manifests into the single context the provisioning layers consume. The
//! hosting tooling reads the manifest files; this module does the shaping.

use vstd::prelude::*;

verus! {

/// A project on disk, reduced to what the context needs: its name and the
/// directory it lives in.
pub struct ProjectSource {
    pub name: String,
    pub dir: String,
}

/// One function declared by a service manifest; a declaration without a
/// handler name falls back to the default.
pub struct FunctionDecl {
    pub name: String,
    pub handler_name: Option<String>,
}

/// One service manifest, already read from disk: the service's own name and
/// provider, with the functions and IO modules it declares.
pub struct ServiceManifest {
    pub name: String,
    pub provider: String,
    pub functions: Vec<FunctionDecl>,
    pub iomods: Vec<String>,
}

/// A project manifest, already read from disk: the project's name and every
/// service manifest it references.
pub struct ProjectManifest {
    pub project_name: String,
    pub services: Vec<ServiceManifest>,
}

/// The project entry of a built context.
pub struct Project {
    pub name: String,
    pub path: String,
}

/// One service of a built context.
pub struct Service {
    pub name: String,
    pub provider: String,
    pub project_name: String,
}

/// One function of a built context, carrying its owning service's name and
/// provider.
pub struct Function {
    pub name: String,
    pub provider: String,
    pub service_name: String,
    pub handler_name: String,
}

/// An authorizer of a built context; manifests declare none today, so a
/// built context carries an empty list.
pub struct Authorizer {
    pub name: String,
    pub service_name: String,
}

/// An IO module declared by a service manifest; declarations are read but
/// the built context does not carry them.
pub struct Iomod {
    pub name: String,
    pub service_name: String,
}

/// The flattened deployment context built from a project and its manifests.
pub struct Context {
    pub project: Project,
    pub services: Vec<Service>,
    pub functions: Vec<Function>,
    pub authorizers: Vec<Authorizer>,
}

/// The ghost shape of one built function entry.
pub struct FunctionModel {
    pub name: Seq<char>,
    pub provider: Seq<char>,
    pub service_name: Seq<char>,
    pub handler_name: Seq<char>,
}

/// The handler name a declaration resolves to: its own, or the default.
pub open spec fn handler_name_model(f: FunctionDecl) -> Seq<char> {
    match f.handler_name {
        Some(h) => h@,
        None => "handler"@,
    }
}

/// The built entries one service manifest contributes, in declaration order.
pub open spec fn service_functions_model(s: ServiceManifest) -> Seq<FunctionModel> {
    s.functions@.map(
        |i: int, f: FunctionDecl|
            FunctionModel {
                name: f.name@,
                provider: s.provider@,
                service_name: s.name@,
                handler_name: handler_name_model(f),
            },
    )
}

/// All built function entries of a manifest list, service by service.
pub open spec fn flattened_functions(services: Seq<ServiceManifest>) -> Seq<FunctionModel>
    decreases services.len(),
{
    if services.len() == 0 {
        Seq::<FunctionModel>::empty()
    } else {
        flattened_functions(services.drop_last()) + service_functions_model(services.last())
    }
}

/// The ghost shape of a built function entry.
pub open spec fn function_model(f: Function) -> FunctionModel {
    FunctionModel {
        name: f.name@,
        provider: f.provider@,
        service_name: f.service_name@,
        handler_name: f.handler_name@,
    }
}

/// The ghost shapes of a list of built function entries.
pub open spec fn functions_model(v: Seq<Function>) -> Seq<FunctionModel> {
    v.map(|i: int, f: Function| function_model(f))
}

impl Context {
    /// Builds the context: one entry per service, every declared function
    /// flattened under its service's provider and name (a missing handler
    /// name defaults), no authorizers, and the project named by the manifest
    /// but located by the project source.
    pub fn from_project(project: &ProjectSource, manifest: ProjectManifest) -> (r: Result<
        Context,
        String,
    >)
        ensures
            r matches Ok(ctx) ==> {
                &&& ctx.project.name@ == manifest.project_name@
                &&& ctx.project.path@ == project.dir@
                &&& ctx.services@.len() == manifest.services@.len()
                &&& forall|i: int|
                    0 <= i < manifest.services@.len() ==> {
                        &&& (#[trigger] ctx.services@[i]).name@ == manifest.services@[i].name@
                        &&& ctx.services@[i].provider@ == manifest.services@[i].provider@
                        &&& ctx.services@[i].project_name@ == project.name@
                    }
                &&& functions_model(ctx.functions@) == flattened_functions(manifest.services@)
                &&& ctx.authorizers@.len() == 0
            },
            r is Ok,
    {
        let mut ctx_services: Vec<Service> = Vec::new();
        let mut ctx_functions: Vec<Function> = Vec::new();
        let ctx_authorizers: Vec<Authorizer> = Vec::new();
        let n = manifest.services.len();
        let mut si: usize = 0;
        proof {
            assert(functions_model(ctx_functions@) =~= flattened_functions(
                manifest.services@.take(0),
            ));
        }
        while si < n
            invariant
                n == manifest.services@.len(),
                si <= n,
                ctx_services@.len() == si,
                forall|i: int|
                    0 <= i < si ==> {
                        &&& (#[trigger] ctx_services@[i]).name@ == manifest.services@[i].name@
                        &&& ctx_services@[i].provider@ == manifest.services@[i].provider@
                        &&& ctx_services@[i].project_name@ == project.name@
                    },
                functions_model(ctx_functions@) == flattened_functions(
                    manifest.services@.take(si as int),
                ),
            decreases n - si,
        {
            let sm = &manifest.services[si];
            ctx_services.push(
                Service {
                    name: sm.name.clone(),
                    provider: sm.provider.clone(),
                    project_name: project.name.clone(),
                },
            );
            let m = sm.functions.len();
            let mut fi: usize = 0;
            proof {
                assert(service_functions_model(*sm).take(0) =~= Seq::<FunctionModel>::empty());
                assert(functions_model(ctx_functions@) =~= flattened_functions(
                    manifest.services@.take(si as int),
                ) + service_functions_model(*sm).take(0));
            }
            while fi < m
                invariant
                    n == manifest.services@.len(),
                    si < n,
                    sm == &manifest.services@[si as int],
                    m == sm.functions@.len(),
                    fi <= m,
                    functions_model(ctx_functions@) == flattened_functions(
                        manifest.services@.take(si as int),
                    ) + service_functions_model(*sm).take(fi as int),
                decreases m - fi,
            {
                let f = &sm.functions[fi];
                let handler_name = match &f.handler_name {
                    Some(h) => h.clone(),
                    None => String::from_str("handler"),
                };
                let ghost fsnap = ctx_functions@;
                ctx_functions.push(
                    Function {
                        name: f.name.clone(),
                        provider: sm.provider.clone(),
                        service_name: sm.name.clone(),
                        handler_name,
                    },
                );
                proof {
                    let newf = ctx_functions@[fsnap.len() as int];
                    assert(ctx_functions@ =~= fsnap.push(newf));
                    assert(function_model(newf) == service_functions_model(*sm)[fi as int]);
                    assert(functions_model(fsnap.push(newf)) =~= functions_model(fsnap).push(
                        function_model(newf),
                    ));
                    assert(service_functions_model(*sm).take(fi + 1)
                        =~= service_functions_model(*sm).take(fi as int).push(
                        service_functions_model(*sm)[fi as int],
                    ));
                    assert(functions_model(ctx_functions@) =~= flattened_functions(
                        manifest.services@.take(si as int),
                    ) + service_functions_model(*sm).take(fi + 1));
                }
                fi = fi + 1;
            }
            proof {
                assert(service_functions_model(*sm).take(m as int) =~= service_functions_model(
                    *sm,
                ));
                let taken = manifest.services@.take(si + 1);
                assert(taken.drop_last() =~= manifest.services@.take(si as int));
                assert(taken.last() == manifest.services@[si as int]);
            }
            si = si + 1;
        }
        proof {
            assert(manifest.services@.take(n as int) =~= manifest.services@);
        }
        Ok(
            Context {
                project: Project { name: manifest.project_name, path: project.dir.clone() },
                services: ctx_services,
                functions: ctx_functions,
                authorizers: ctx_authorizers,
            },
        )
    }
}

} // verus!
