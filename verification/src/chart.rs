//! Configuration for the chart rendering that consumes the embedding this
//! operator trains: a caption, an output path and pixel dimensions, with a
//! builder that fills unset fields from the defaults. The drawing itself
//! is plain file output and lives outside the library.

use vstd::prelude::*;

verus! {

broadcast use vstd::string::group_string_axioms;

/// Configuration for a rendered chart.
#[derive(Debug, Clone)]
pub struct ChartConfig {
    pub caption: String,
    pub path: String,
    pub width: u32,
    pub height: u32,
}

impl ChartConfig {
    /// A builder whose every field starts at the default configuration.
    pub fn builder() -> (b: ChartConfigBuilder)
        ensures
            b.caption matches Some(c) && c@ == "fast-umap"@,
            b.path matches Some(p) && p@ == "plot.png"@,
            b.width == Some(1000u32),
            b.height == Some(1000u32),
    {
        ChartConfigBuilder {
            caption: Some("fast-umap".to_string()),
            path: Some("plot.png".to_string()),
            width: Some(1000),
            height: Some(1000),
        }
    }
}

impl Default for ChartConfig {
    /// The default chart: the library's caption, `plot.png`, 1000 by 1000.
    fn default() -> (c: Self)
        ensures
            c.caption@ == "fast-umap"@,
            c.path@ == "plot.png"@,
            c.width == 1000,
            c.height == 1000,
    {
        ChartConfig {
            caption: "fast-umap".to_string(),
            path: "plot.png".to_string(),
            width: 1000,
            height: 1000,
        }
    }
}

/// Builder for `ChartConfig`: unset fields fall back to the defaults.
pub struct ChartConfigBuilder {
    pub caption: Option<String>,
    pub path: Option<String>,
    pub width: Option<u32>,
    pub height: Option<u32>,
}

impl Default for ChartConfigBuilder {
    /// A builder with default texts and no preferred dimensions.
    fn default() -> (b: Self)
        ensures
            b.caption matches Some(c) && c@ == "fast-umap"@,
            b.path matches Some(p) && p@ == "plot.png"@,
            b.width is None,
            b.height is None,
    {
        ChartConfigBuilder {
            caption: Some("fast-umap".to_string()),
            path: Some("plot.png".to_string()),
            width: None,
            height: None,
        }
    }
}

impl ChartConfigBuilder {
    /// Set the caption.
    pub fn caption(self, caption: &str) -> (b: Self)
        ensures
            b.caption matches Some(c) && c@ == caption@,
            b.path == self.path,
            b.width == self.width,
            b.height == self.height,
    {
        ChartConfigBuilder {
            caption: Some(caption.to_string()),
            path: self.path,
            width: self.width,
            height: self.height,
        }
    }

    /// Set the output path.
    pub fn path(self, path: &str) -> (b: Self)
        ensures
            b.path matches Some(p) && p@ == path@,
            b.caption == self.caption,
            b.width == self.width,
            b.height == self.height,
    {
        ChartConfigBuilder {
            caption: self.caption,
            path: Some(path.to_string()),
            width: self.width,
            height: self.height,
        }
    }

    /// Set the width in pixels.
    pub fn width(self, width: u32) -> (b: Self)
        ensures
            b.width == Some(width),
            b.caption == self.caption,
            b.path == self.path,
            b.height == self.height,
    {
        ChartConfigBuilder {
            caption: self.caption,
            path: self.path,
            width: Some(width),
            height: self.height,
        }
    }

    /// Set the height in pixels.
    pub fn height(self, height: u32) -> (b: Self)
        ensures
            b.height == Some(height),
            b.caption == self.caption,
            b.path == self.path,
            b.width == self.width,
    {
        ChartConfigBuilder {
            caption: self.caption,
            path: self.path,
            width: self.width,
            height: Some(height),
        }
    }

    /// Finish: every set field is kept, every unset one takes the default.
    pub fn build(self) -> (c: ChartConfig)
        ensures
            self.caption matches Some(s) ==> c.caption == s,
            self.caption is None ==> c.caption@ == "fast-umap"@,
            self.path matches Some(s) ==> c.path == s,
            self.path is None ==> c.path@ == "plot.png"@,
            self.width matches Some(w) ==> c.width == w,
            self.width is None ==> c.width == 1000,
            self.height matches Some(h) ==> c.height == h,
            self.height is None ==> c.height == 1000,
    {
        let caption = match self.caption {
            Some(s) => s,
            None => "fast-umap".to_string(),
        };
        let path = match self.path {
            Some(s) => s,
            None => "plot.png".to_string(),
        };
        let width = match self.width {
            Some(w) => w,
            None => 1000,
        };
        let height = match self.height {
            Some(h) => h,
            None => 1000,
        };
        ChartConfig { caption, path, width, height }
    }
}

} // verus!
