use appstream::Collection;
use package_backends::backend::{Backend, BackendError, Handle};
use package_backends::builder::{backends, Constructor, Module};
use package_backends::package::{IconName, Package};
use std::collections::HashMap;
use std::sync::Arc;

/// Stands for the metadata cache that the caller of the builder owns.
struct Cache {
    origin: &'static str,
}

/// A backend with a fixed list of packages.
struct Fixed {
    packages: Vec<Package>,
}

impl Backend for Fixed {
    fn installed(&self) -> Result<Vec<Package>, BackendError> {
        Ok(self.packages.clone())
    }

    fn appstream(&self, package: &Package) -> Result<Collection, BackendError> {
        Err(BackendError { cause: format!("no metadata for {}", package.id) })
    }
}

fn package(id: &str, name: &str) -> Package {
    Package {
        id: id.to_string(),
        icon: IconName { name: "package-x-generic".to_string() },
        name: name.to_string(),
        version: "1.0".to_string(),
        extra: HashMap::new(),
    }
}

/// A constructor that brings up a backend with one package named after it.
struct Succeeds {
    name: &'static str,
}

impl Constructor<Cache> for Succeeds {
    fn construct(&self, _appstream_cache: &Arc<Cache>, _locale: &str) -> Result<Handle, BackendError> {
        Ok(Handle { backend: Arc::new(Fixed { packages: vec![package("only", self.name)] }) })
    }
}

/// A constructor that never brings its backend up.
struct Fails {
    cause: &'static str,
}

impl Constructor<Cache> for Fails {
    fn construct(&self, _appstream_cache: &Arc<Cache>, _locale: &str) -> Result<Handle, BackendError> {
        Err(BackendError { cause: self.cause.to_string() })
    }
}

/// A constructor that puts the startup context into its backend's package.
struct UsesContext;

impl Constructor<Cache> for UsesContext {
    fn construct(&self, appstream_cache: &Arc<Cache>, locale: &str) -> Result<Handle, BackendError> {
        Ok(Handle {
            backend: Arc::new(Fixed { packages: vec![package(appstream_cache.origin, locale)] }),
        })
    }
}

fn succeeding(identifier: &'static str) -> Module<Cache> {
    Module { identifier, constructor: Box::new(Succeeds { name: identifier }) }
}

fn failing(identifier: &'static str, cause: &'static str) -> Module<Cache> {
    Module { identifier, constructor: Box::new(Fails { cause }) }
}

fn cache() -> Arc<Cache> {
    Arc::new(Cache { origin: "flathub" })
}

/// The name of the only package of the backend under `identifier`.
fn only_name(registry: &package_backends::registry::Registry, identifier: &str) -> String {
    let handle = registry.get(identifier).expect("the backend is registered");
    let packages = handle.backend.installed().expect("the backend answers");
    assert_eq!(packages.len(), 1);
    packages[0].name.clone()
}

#[test]
fn one_backend_fails_and_the_other_is_registered() {
    let modules = vec![succeeding("A"), failing("B", "daemon not running")];
    let (registry, diagnostics) = backends(&modules, &cache(), "en_US");

    assert_eq!(registry.len(), 1);
    assert!(registry.contains_key("A"));
    assert_eq!(only_name(&registry, "A"), "A");
    assert!(registry.get("B").is_none());
    assert!(!registry.contains_key("B"));

    assert_eq!(diagnostics.len(), 1);
    assert_eq!(diagnostics[0].identifier, "B");
    assert_eq!(diagnostics[0].error.cause, "daemon not running");
}

#[test]
fn no_backend_comes_up_and_the_registry_is_empty() {
    let modules = vec![failing("flatpak", "no installation"), failing("packagekit", "no bus")];
    let (registry, diagnostics) = backends(&modules, &cache(), "en_US");

    assert!(registry.is_empty());
    assert_eq!(registry.len(), 0);
    assert!(registry.identifiers().is_empty());
    assert!(registry.get("flatpak").is_none());
    assert!(registry.get("packagekit").is_none());

    assert_eq!(diagnostics.len(), 2);
    assert_eq!(diagnostics[0].identifier, "flatpak");
    assert_eq!(diagnostics[0].error.cause, "no installation");
    assert_eq!(diagnostics[1].identifier, "packagekit");
    assert_eq!(diagnostics[1].error.cause, "no bus");
}

#[test]
fn no_modules_give_an_empty_registry_and_no_diagnostics() {
    let modules: Vec<Module<Cache>> = Vec::new();
    let (registry, diagnostics) = backends(&modules, &cache(), "en_US");
    assert!(registry.is_empty());
    assert!(diagnostics.is_empty());
}

#[test]
fn every_backend_comes_up() {
    let modules = vec![succeeding("flatpak"), succeeding("packagekit")];
    let (registry, diagnostics) = backends(&modules, &cache(), "en_US");
    assert_eq!(registry.len(), 2);
    assert_eq!(only_name(&registry, "flatpak"), "flatpak");
    assert_eq!(only_name(&registry, "packagekit"), "packagekit");
    assert!(diagnostics.is_empty());
}

#[test]
fn each_set_of_failing_modules_leaves_exactly_the_others() {
    let names: [&'static str; 3] = ["a", "b", "c"];
    for failing_set in 0u32..8 {
        let mut modules = Vec::new();
        for (i, name) in names.iter().enumerate() {
            if failing_set & (1 << i) != 0 {
                modules.push(failing(name, "down"));
            } else {
                modules.push(succeeding(name));
            }
        }
        let (registry, diagnostics) = backends(&modules, &cache(), "en_US");

        let mut reported = Vec::new();
        for (i, name) in names.iter().enumerate() {
            let fails = failing_set & (1 << i) != 0;
            assert_eq!(registry.contains_key(name), !fails);
            assert_eq!(registry.get(name).is_some(), !fails);
            if fails {
                reported.push(*name);
            } else {
                assert_eq!(only_name(&registry, name), *name);
            }
        }
        assert_eq!(registry.len() + diagnostics.len(), names.len());
        let got: Vec<&str> = diagnostics.iter().map(|d| d.identifier).collect();
        assert_eq!(got, reported);
    }
}

#[test]
fn identifiers_are_the_same_in_every_build() {
    let modules = vec![succeeding("flatpak"), failing("snap", "absent"), succeeding("packagekit")];
    let (first, _) = backends(&modules, &cache(), "en_US");
    let (second, _) = backends(&modules, &cache(), "de_DE");

    let mut first_names = first.identifiers();
    let mut second_names = second.identifiers();
    first_names.sort();
    second_names.sort();
    assert_eq!(first_names, vec!["flatpak", "packagekit"]);
    assert_eq!(first_names, second_names);
}

#[test]
fn the_startup_context_reaches_the_constructor() {
    let modules = vec![Module { identifier: "packagekit", constructor: Box::new(UsesContext) }];
    let (registry, diagnostics) = backends(&modules, &cache(), "fr_FR");
    assert!(diagnostics.is_empty());

    let handle = registry.get("packagekit").expect("the backend is registered");
    let packages = handle.backend.installed().expect("the backend answers");
    assert_eq!(packages.len(), 1);
    assert_eq!(packages[0].id, "flathub");
    assert_eq!(packages[0].name, "fr_FR");
}

#[test]
fn a_later_module_under_the_same_identifier_replaces_the_earlier() {
    let modules = vec![
        Module { identifier: "flatpak", constructor: Box::new(Succeeds { name: "first" }) },
        Module { identifier: "flatpak", constructor: Box::new(Succeeds { name: "second" }) },
    ];
    let (registry, diagnostics) = backends(&modules, &cache(), "en_US");
    assert_eq!(registry.len(), 1);
    assert_eq!(only_name(&registry, "flatpak"), "second");
    assert!(diagnostics.is_empty());
}

#[test]
fn a_failure_after_a_success_under_the_same_identifier_keeps_the_entry() {
    let modules = vec![succeeding("flatpak"), failing("flatpak", "second try failed")];
    let (registry, diagnostics) = backends(&modules, &cache(), "en_US");
    assert_eq!(registry.len(), 1);
    assert_eq!(only_name(&registry, "flatpak"), "flatpak");
    assert_eq!(diagnostics.len(), 1);
    assert_eq!(diagnostics[0].identifier, "flatpak");
    assert_eq!(diagnostics[0].error.cause, "second try failed");
}
