//! The registry of JSON schemas that describe the robot outputs.
use vstd::prelude::*;
use vstd::string::StrSliceExecFns;
use vstd::string::StringExecFns;
use crate::text::str_eq;

verus! {

/// A schema of the registry.
#[derive(Debug, Clone)]
pub struct SchemaEntry {
    /// Schema identifier (such as "vc.robot.health.v1")
    pub id: String,
    /// File name in the schemas directory
    pub file: String,
    /// Human-readable title
    pub title: String,
    /// Description
    pub description: String,
    /// CLI command that produces this output
    pub command: String,
}

/// Index of the registry.
#[derive(Debug, Clone)]
pub struct SchemaIndex {
    /// Registry version
    pub version: String,
    /// Available schemas
    pub schemas: Vec<SchemaEntry>,
}

/// Whether `e` holds the given fields.
pub open spec fn entry_is(
    e: SchemaEntry,
    id: Seq<char>,
    file: Seq<char>,
    title: Seq<char>,
    description: Seq<char>,
    command: Seq<char>,
) -> bool {
    e.id@ == id && e.file@ == file && e.title@ == title && e.description@ == description && e.command@
        == command
}

/// Whether `v` is the registry's default list of schemas.
pub open spec fn is_default_schemas(v: Seq<SchemaEntry>) -> bool {
    &&& v.len() == 4
    &&& entry_is(
        v[0],
        "robot-envelope"@,
        "robot-envelope.json"@,
        "RobotEnvelope"@,
        "Standard envelope for all robot mode output"@,
        "(base schema)"@,
    )
    &&& entry_is(
        v[1],
        "vc.robot.health.v1"@,
        "robot-health.json"@,
        "Health Data"@,
        "Overall fleet health data"@,
        "vc robot health"@,
    )
    &&& entry_is(
        v[2],
        "vc.robot.status.v1"@,
        "robot-status.json"@,
        "Status Data"@,
        "Comprehensive fleet status data"@,
        "vc robot status"@,
    )
    &&& entry_is(
        v[3],
        "vc.robot.triage.v1"@,
        "robot-triage.json"@,
        "Triage Data"@,
        "Triage recommendations"@,
        "vc robot triage"@,
    )
}

fn entry(id: &str, file: &str, title: &str, description: &str, command: &str) -> (r: SchemaEntry)
    ensures
        r.id@ == id@,
        r.file@ == file@,
        r.title@ == title@,
        r.description@ == description@,
        r.command@ == command@,
{
    SchemaEntry {
        id: String::from_str(id),
        file: String::from_str(file),
        title: String::from_str(title),
        description: String::from_str(description),
        command: String::from_str(command),
    }
}

impl Default for SchemaIndex {
    fn default() -> (r: Self)
        ensures
            r.version@ == "1.0.0"@,
            is_default_schemas(r.schemas@),
    {
        let mut schemas: Vec<SchemaEntry> = Vec::new();
        schemas.push(
            entry(
                "robot-envelope",
                "robot-envelope.json",
                "RobotEnvelope",
                "Standard envelope for all robot mode output",
                "(base schema)",
            ),
        );
        schemas.push(
            entry(
                "vc.robot.health.v1",
                "robot-health.json",
                "Health Data",
                "Overall fleet health data",
                "vc robot health",
            ),
        );
        schemas.push(
            entry(
                "vc.robot.status.v1",
                "robot-status.json",
                "Status Data",
                "Comprehensive fleet status data",
                "vc robot status",
            ),
        );
        schemas.push(
            entry(
                "vc.robot.triage.v1",
                "robot-triage.json",
                "Triage Data",
                "Triage recommendations",
                "vc robot triage",
            ),
        );
        SchemaIndex { version: String::from_str("1.0.0"), schemas }
    }
}

/// The schemas directory under a project root, joined as a relative path.
pub open spec fn schemas_dir_of(root: Seq<char>) -> Seq<char> {
    if root.len() == 0 {
        "docs/schemas"@
    } else if root.last() == '/' {
        root + "docs/schemas"@
    } else {
        root + "/docs/schemas"@
    }
}

fn schemas_dir_for(project_root: &str) -> (r: String)
    ensures
        r@ == schemas_dir_of(project_root@),
{
    let n = project_root.unicode_len();
    if n == 0 {
        String::from_str("docs/schemas")
    } else if project_root.get_char(n - 1) == '/' {
        String::from_str(project_root).concat("docs/schemas")
    } else {
        String::from_str(project_root).concat("/docs/schemas")
    }
}

/// Registry of the JSON schemas: the index, and the content of those loaded,
/// each identifier at most once.
pub struct SchemaRegistry {
    schemas_dir: String,
    schemas: Vec<(String, String)>,
    index: SchemaIndex,
}

/// Whether the first `n` loaded schemas hold none with identifier `id`.
pub open spec fn lacks_id(v: Seq<(String, String)>, n: int, id: Seq<char>) -> bool {
    forall|k: int| 0 <= k < n ==> (#[trigger] v[k]).0@ != id
}

impl SchemaRegistry {
    /// The loaded schemas, as (identifier, content) pairs.
    pub closed spec fn loaded(&self) -> Seq<(String, String)> {
        self.schemas@
    }

    /// The index.
    pub closed spec fn index_spec(&self) -> SchemaIndex {
        self.index
    }

    /// The schemas directory.
    pub closed spec fn dir_spec(&self) -> Seq<char> {
        self.schemas_dir@
    }

    /// Identifiers of the loaded schemas are unique.
    pub open spec fn wf(&self) -> bool {
        forall|a: int, b: int| 0 <= a < b < self.loaded().len() ==> self.loaded()[a].0@ != self.loaded()[b].0@
    }

    /// A registry for the schemas under `project_root`, with none loaded yet.
    pub fn new(project_root: &str) -> (r: Self)
        ensures
            r.wf(),
            r.loaded().len() == 0,
            r.dir_spec() == schemas_dir_of(project_root@),
            r.index_spec().version@ == "1.0.0"@,
            is_default_schemas(r.index_spec().schemas@),
    {
        SchemaRegistry {
            schemas_dir: schemas_dir_for(project_root),
            schemas: Vec::new(),
            index: SchemaIndex::default(),
        }
    }

    /// The schemas directory.
    pub fn schemas_dir(&self) -> (r: &str)
        ensures
            r@ == self.dir_spec(),
    {
        self.schemas_dir.as_str()
    }

    /// Records the content of schema `id`, replacing what was held for it.
    pub fn add_schema(&mut self, id: String, content: String)
        requires
            old(self).wf(),
        ensures
            final(self).wf(),
            final(self).index_spec() == old(self).index_spec(),
            final(self).dir_spec() == old(self).dir_spec(),
            (exists|k: int|
                0 <= k < old(self).loaded().len() && (#[trigger] old(self).loaded()[k]).0@ == id@
                    && final(self).loaded() == old(self).loaded().update(k, (id, content)))
                || (lacks_id(old(self).loaded(), old(self).loaded().len() as int, id@)
                && final(self).loaded() == old(self).loaded().push((id, content))),
    {
        let mut i: usize = 0;
        while i < self.schemas.len()
            invariant
                *self == *old(self),
                old(self).wf(),
                0 <= i <= self.schemas@.len(),
                lacks_id(self.schemas@, i as int, id@),
            decreases self.schemas@.len() - i,
        {
            if str_eq(self.schemas[i].0.as_str(), id.as_str()) {
                let ghost before = self.schemas@;
                let ghost entry = (id, content);
                self.schemas[i] = (id, content);
                proof {
                    assert(self.schemas@ == before.update(i as int, entry));
                    assert(before[i as int].0@ == id@);
                    assert forall|a: int, b: int|
                        0 <= a < b < self.schemas@.len() implies self.schemas@[a].0@ != self.schemas@[b].0@ by {
                        assert(old(self).loaded() == before);
                        assert(old(self).loaded()[a].0@ != old(self).loaded()[b].0@);
                    }
                }
                return;
            }
            i = i + 1;
        }
        let ghost before = self.schemas@;
        let ghost entry = (id, content);
        self.schemas.push((id, content));
        proof {
            assert(self.schemas@ == before.push(entry));
            assert forall|a: int, b: int|
                0 <= a < b < self.schemas@.len() implies self.schemas@[a].0@ != self.schemas@[b].0@ by {
                assert(old(self).loaded() == before);
                assert(self.schemas@[a] == before[a]);
                if b < before.len() {
                    assert(self.schemas@[b] == before[b]);
                    assert(old(self).loaded()[a].0@ != old(self).loaded()[b].0@);
                }
            }
        }
    }

    /// The content of schema `schema_id`, where it was loaded.
    pub fn get_schema(&self, schema_id: &str) -> (r: Option<&str>)
        requires
            self.wf(),
        ensures
            match r {
                Some(c) => exists|k: int|
                    0 <= k < self.loaded().len() && (#[trigger] self.loaded()[k]).0@ == schema_id@
                        && self.loaded()[k].1@ == c@,
                None => lacks_id(self.loaded(), self.loaded().len() as int, schema_id@),
            },
    {
        let mut i: usize = 0;
        while i < self.schemas.len()
            invariant
                0 <= i <= self.schemas@.len(),
                lacks_id(self.schemas@, i as int, schema_id@),
            decreases self.schemas@.len() - i,
        {
            if str_eq(self.schemas[i].0.as_str(), schema_id) {
                assert(self.loaded()[i as int].0@ == schema_id@);
                return Some(self.schemas[i].1.as_str());
            }
            i = i + 1;
        }
        None
    }

    /// The schema index.
    pub fn index(&self) -> (r: &SchemaIndex)
        ensures
            *r == self.index_spec(),
    {
        &self.index
    }

    /// The identifiers of the indexed schemas, in index order.
    pub fn list_schemas(&self) -> (r: Vec<&str>)
        ensures
            r@.len() == self.index_spec().schemas@.len(),
            forall|k: int| 0 <= k < r@.len() ==> (#[trigger] r@[k])@ == self.index_spec().schemas@[k].id@,
    {
        let mut out: Vec<&str> = Vec::new();
        let mut i: usize = 0;
        while i < self.index.schemas.len()
            invariant
                0 <= i <= self.index.schemas@.len(),
                out@.len() == i,
                forall|k: int| 0 <= k < i ==> (#[trigger] out@[k])@ == self.index.schemas@[k].id@,
            decreases self.index.schemas@.len() - i,
        {
            out.push(self.index.schemas[i].id.as_str());
            i = i + 1;
        }
        out
    }

    /// The first indexed schema with identifier `schema_id`.
    pub fn find_entry(&self, schema_id: &str) -> (r: Option<&SchemaEntry>)
        ensures
            match r {
                Some(e) => exists|k: int|
                    0 <= k < self.index_spec().schemas@.len() && *e == (#[trigger] self.index_spec().schemas@[k])
                        && e.id@ == schema_id@ && forall|j: int|
                        0 <= j < k ==> self.index_spec().schemas@[j].id@ != schema_id@,
                None => forall|k: int|
                    0 <= k < self.index_spec().schemas@.len() ==> (#[trigger] self.index_spec().schemas@[k]).id@
                        != schema_id@,
            },
    {
        let mut i: usize = 0;
        while i < self.index.schemas.len()
            invariant
                0 <= i <= self.index.schemas@.len(),
                forall|j: int| 0 <= j < i ==> (#[trigger] self.index.schemas@[j]).id@ != schema_id@,
            decreases self.index.schemas@.len() - i,
        {
            if str_eq(self.index.schemas[i].id.as_str(), schema_id) {
                assert(self.index_spec().schemas@[i as int].id@ == schema_id@);
                return Some(&self.index.schemas[i]);
            }
            i = i + 1;
        }
        None
    }

    /// The schema named by the `schema_version` of a robot output.
    pub fn get_schema_for_version(&self, schema_version: &str) -> (r: Option<&str>)
        requires
            self.wf(),
        ensures
            match r {
                Some(c) => exists|k: int|
                    0 <= k < self.loaded().len() && (#[trigger] self.loaded()[k]).0@ == schema_version@
                        && self.loaded()[k].1@ == c@,
                None => lacks_id(self.loaded(), self.loaded().len() as int, schema_version@),
            },
    {
        self.get_schema(schema_version)
    }
}

/// Output of the schema documentation command.
#[derive(Debug, Clone)]
pub struct SchemasOutput {
    /// Registry version
    pub version: String,
    /// Available schemas
    pub schemas: Vec<SchemaEntry>,
    /// Path of the schemas directory
    pub schemas_dir: String,
}

/// The schema documentation for the project under `project_root`.
pub fn robot_docs_schemas(project_root: &str) -> (r: SchemasOutput)
    ensures
        r.version@ == "1.0.0"@,
        is_default_schemas(r.schemas@),
        r.schemas_dir@ == schemas_dir_of(project_root@),
{
    let index = SchemaIndex::default();
    SchemasOutput {
        version: index.version,
        schemas: index.schemas,
        schemas_dir: schemas_dir_for(project_root),
    }
}

} // verus!
