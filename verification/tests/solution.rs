//! The solution adapter, driven with real solution text and tokenized
//! project descriptors.

use depviz::errors::GraphError;
use depviz::langs::csharp::{
    CSharpConfiguration, CanonicalEntry, ProjectFileEntry, SolutionDoc, XmlAttribute, XmlPiece,
};
use depviz::model::TargetKind;

fn sln_text() -> String {
    let mut s = String::new();
    s.push_str("Microsoft Visual Studio Solution File, Format Version 12.00\n");
    s.push_str("# Visual Studio 16\n");
    s.push_str("VisualStudioVersion = 16.0.28701.123\n");
    s.push_str("MinimumVisualStudioVersion = 10.0.40219.1\n");
    s.push_str(
        "Project(\"{FAE04EC0-301F-11D3-BF4B-00C04F79EFBC}\") = \"A\", \"A\\A.csproj\", \"{A61CD222-0F3B-47B6-9F7F-25D658368EEC}\"\n",
    );
    s.push_str("EndProject\n");
    s.push_str(
        "Project(\"{FAE04EC0-301F-11D3-BF4B-00C04F79EFBC}\") = \"B\", \"B\\B.csproj\", \"{B61CD222-0F3B-47B6-9F7F-25D658368EEC}\"\n",
    );
    s.push_str("EndProject\n");
    s.push_str("Global\n");
    s.push_str("EndGlobal\n");
    s
}

fn start(name: &str, attrs: Vec<(&str, &str)>) -> XmlPiece {
    XmlPiece::Start {
        name: name.to_string(),
        attributes: attrs
            .into_iter()
            .map(|(n, v)| XmlAttribute { name: n.to_string(), value: v.to_string() })
            .collect(),
    }
}

/// Project `A` references `B` by relative path; `B` has no references.
fn doc() -> SolutionDoc {
    let a_pieces = vec![
        start("Project", vec![("Sdk", "Microsoft.NET.Sdk")]),
        start("ProjectReference", vec![("Include", "..\\B\\B.csproj")]),
        XmlPiece::End,
        XmlPiece::End,
    ];
    let b_pieces = vec![start("Project", vec![("Sdk", "Microsoft.NET.Sdk")]), XmlPiece::End];
    SolutionDoc {
        root: "/sol".to_string(),
        text: sln_text(),
        files: vec![
            ProjectFileEntry { path: "/sol/A/A.csproj".to_string(), pieces: a_pieces },
            ProjectFileEntry { path: "/sol/B/B.csproj".to_string(), pieces: b_pieces },
        ],
        canonical: vec![CanonicalEntry {
            path: "/sol/A/../B/B.csproj".to_string(),
            canonical: "/sol/B/B.csproj".to_string(),
        }],
    }
}

#[test]
fn scenario_reference_is_rewritten_to_the_declared_name() {
    let ts = CSharpConfiguration::parse_solution(&doc()).unwrap();
    assert_eq!(ts.len(), 2);
    assert_eq!(ts[0].name, "A");
    let deps = ts[0].dependencies.as_ref().unwrap();
    assert_eq!(deps.len(), 1);
    assert_eq!(deps[0].name, "B");
    assert_eq!(deps[0].kind, TargetKind::Library);
    assert_eq!(ts[1].name, "B");
    assert_eq!(ts[1].dependencies.as_ref().unwrap().len(), 0);
}

#[test]
fn plain_sdk_projects_are_libraries() {
    let ts = CSharpConfiguration::parse_solution(&doc()).unwrap();
    assert_eq!(ts[0].kind, TargetKind::Library);
    assert_eq!(ts[1].kind, TargetKind::Library);
    assert_eq!(ts[0].version, "");
}

#[test]
fn web_sdk_makes_a_binary() {
    let mut d = doc();
    d.files[1].pieces = vec![
        start("Project", vec![("Sdk", "Microsoft.NET.Sdk.Web")]),
        XmlPiece::End,
    ];
    let ts = CSharpConfiguration::parse_solution(&d).unwrap();
    assert_eq!(ts[1].kind, TargetKind::Binary);
}

#[test]
fn exe_output_type_makes_a_binary() {
    let mut d = doc();
    d.files[1].pieces = vec![
        start("Project", vec![("Sdk", "Microsoft.NET.Sdk")]),
        start("OutputType", vec![]),
        XmlPiece::Text("Exe".to_string()),
        XmlPiece::End,
        XmlPiece::End,
    ];
    let ts = CSharpConfiguration::parse_solution(&d).unwrap();
    assert_eq!(ts[1].kind, TargetKind::Binary);
}

#[test]
fn unmatched_reference_keeps_its_canonical_path() {
    let mut d = doc();
    // the referenced file is canonicalized outside the solution root
    d.canonical = vec![CanonicalEntry {
        path: "/sol/A/../B/B.csproj".to_string(),
        canonical: "/elsewhere/B.csproj".to_string(),
    }];
    let ts = CSharpConfiguration::parse_solution(&d).unwrap();
    let deps = ts[0].dependencies.as_ref().unwrap();
    assert_eq!(deps[0].name, "/elsewhere/B.csproj");
}

#[test]
fn garbage_solution_text_is_malformed() {
    let mut d = doc();
    d.text = "this is not a solution".to_string();
    let r = CSharpConfiguration::parse_solution(&d);
    assert!(matches!(r, Err(GraphError::MalformedManifest(_))));
}

#[test]
fn missing_project_descriptor_is_a_filesystem_error() {
    let mut d = doc();
    d.files.remove(1);
    let r = CSharpConfiguration::parse_solution(&d);
    assert!(matches!(r, Err(GraphError::FilesystemError(p)) if p == "/sol/B/B.csproj"));
}

#[test]
fn missing_canonicalization_fact_is_a_filesystem_error() {
    let mut d = doc();
    d.canonical = vec![];
    let r = CSharpConfiguration::parse_solution(&d);
    assert!(matches!(r, Err(GraphError::FilesystemError(p)) if p == "/sol/A/../B/B.csproj"));
}
