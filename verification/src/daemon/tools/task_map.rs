//! The kinds of tasks and the guides that help with them.

use crate::text::views;
use vstd::prelude::*;

verus! {

/// A guide, its category, and the words that call for it.
#[derive(Debug)]
pub struct TaskGuide {
    pub guide: &'static str,
    pub category: &'static str,
    pub keywords: Vec<&'static str>,
}

/// The content of this record.
#[verifier::ext_equal]
pub struct TaskGuideView {
    pub guide: Seq<char>,
    pub category: Seq<char>,
    pub keywords: Seq<Seq<char>>,
}

impl View for TaskGuide {
    type V = TaskGuideView;

    open spec fn view(&self) -> TaskGuideView {
        TaskGuideView {
            guide: self.guide@,
            category: self.category@,
            keywords: views(self.keywords@),
        }
    }
}

pub open spec fn task(guide: Seq<char>, category: Seq<char>, keywords: Seq<Seq<char>>) ->
    TaskGuideView {
    TaskGuideView { guide, category, keywords }
}

fn push_task(
    out: &mut Vec<TaskGuide>,
    guide: &'static str,
    category: &'static str,
    keywords: Vec<&'static str>,
)
    ensures
        views(final(out)@) == views(old(out)@).push(task(guide@, category@, views(keywords@))),
{
    broadcast use crate::text::lemma_views_push;

    out.push(TaskGuide { guide, category, keywords });
}

/// Web pages and their frameworks.
pub open spec fn web_tasks() -> Seq<TaskGuideView> {
    seq![
        task("html"@, "web-frontend"@, seq!["web"@, "sayfa"@, "ui"@, "arayüz"@, "html"@]),
        task("css"@, "web-frontend"@, seq!["stil"@, "style"@, "tasarım"@, "design"@, "css"@]),
        task("javascript"@, "programming-language"@, seq!["js"@, "web"@, "frontend"@]),
        task("react"@, "web-frontend"@, seq!["component"@, "jsx"@, "hook"@, "state"@, "react"@]),
        task("vue"@, "web-frontend"@, seq!["vue"@, "component"@, "template"@]),
        task("angular"@, "web-frontend"@, seq!["angular"@, "component"@, "service"@]),
        task("tailwind"@, "web-frontend"@, seq!["tailwind"@, "css"@, "utility"@]),
        task("nextjs"@, "web-frontend"@, seq!["next"@, "nextjs"@, "ssr"@, "app router"@]),
        task("typescript"@, "programming-language"@, seq!["ts"@, "tip"@, "type"@, "interface"@]),
    ]
}

fn push_web_tasks(out: &mut Vec<TaskGuide>)
    ensures
        views(final(out)@) == views(old(out)@) + web_tasks(),
{
    let ghost start = views(out@);
    push_task(out, "html", "web-frontend", vec!["web", "sayfa", "ui", "arayüz", "html"]);
    push_task(out, "css", "web-frontend", vec!["stil", "style", "tasarım", "design", "css"]);
    push_task(out, "javascript", "programming-language", vec!["js", "web", "frontend"]);
    push_task(out, "react", "web-frontend", vec!["component", "jsx", "hook", "state", "react"]);
    push_task(out, "vue", "web-frontend", vec!["vue", "component", "template"]);
    push_task(out, "angular", "web-frontend", vec!["angular", "component", "service"]);
    push_task(out, "tailwind", "web-frontend", vec!["tailwind", "css", "utility"]);
    push_task(out, "nextjs", "web-frontend", vec!["next", "nextjs", "ssr", "app router"]);
    push_task(out, "typescript", "programming-language", vec!["ts", "tip", "type", "interface"]);
    proof {
        assert(views(out@) =~~= start + web_tasks());
    }
}

/// Servers and their interfaces.
pub open spec fn backend_tasks() -> Seq<TaskGuideView> {
    seq![
        task("nodejs"@, "web-backend"@, seq!["node"@, "server"@, "api"@, "express"@]),
        task("express"@, "web-backend"@, seq!["express"@, "router"@, "middleware"@]),
        task("nestjs"@, "web-backend"@, seq!["nestjs"@, "module"@, "controller"@, "service"@]),
        task("python"@, "programming-language"@, seq!["py"@, "django"@, "flask"@, "fastapi"@]),
        task("fastapi"@, "web-backend"@, seq!["fastapi"@, "async"@, "python"@]),
        task("django"@, "web-backend"@, seq!["django"@, "orm"@, "python"@]),
        task("rest"@, "web-backend"@, seq!["api"@, "rest"@, "endpoint"@, "http"@]),
        task("graphql"@, "web-backend"@, seq!["graphql"@, "query"@, "mutation"@, "schema"@]),
        task("trpc"@, "web-backend"@, seq!["trpc"@, "typescript"@, "rpc"@]),
    ]
}

fn push_backend_tasks(out: &mut Vec<TaskGuide>)
    ensures
        views(final(out)@) == views(old(out)@) + backend_tasks(),
{
    let ghost start = views(out@);
    push_task(out, "nodejs", "web-backend", vec!["node", "server", "api", "express"]);
    push_task(out, "express", "web-backend", vec!["express", "router", "middleware"]);
    push_task(out, "nestjs", "web-backend", vec!["nestjs", "module", "controller", "service"]);
    push_task(out, "python", "programming-language", vec!["py", "django", "flask", "fastapi"]);
    push_task(out, "fastapi", "web-backend", vec!["fastapi", "async", "python"]);
    push_task(out, "django", "web-backend", vec!["django", "orm", "python"]);
    push_task(out, "rest", "web-backend", vec!["api", "rest", "endpoint", "http"]);
    push_task(out, "graphql", "web-backend", vec!["graphql", "query", "mutation", "schema"]);
    push_task(out, "trpc", "web-backend", vec!["trpc", "typescript", "rpc"]);
    proof {
        assert(views(out@) =~~= start + backend_tasks());
    }
}

/// Databases.
pub open spec fn storage_tasks() -> Seq<TaskGuideView> {
    seq![
        task("postgresql"@, "data-storage"@, seq!["postgres"@, "sql"@, "relational"@, "pg"@]),
        task("mongodb"@, "data-storage"@, seq!["mongo"@, "nosql"@, "document"@]),
        task("redis"@, "data-storage"@, seq!["redis"@, "cache"@, "key-value"@]),
        task("prisma"@, "data-storage"@, seq!["prisma"@, "orm"@, "schema"@]),
        task("sqlite"@, "data-storage"@, seq!["sqlite"@, "local"@, "embedded"@]),
        task("supabase"@, "data-storage"@, seq!["supabase"@, "postgres"@, "auth"@, "storage"@]),
        task("pinecone"@, "data-storage"@, seq!["pinecone"@, "vector"@, "embedding"@]),
        task("elasticsearch"@, "data-storage"@, seq!["elastic"@, "search"@, "index"@]),
    ]
}

fn push_storage_tasks(out: &mut Vec<TaskGuide>)
    ensures
        views(final(out)@) == views(old(out)@) + storage_tasks(),
{
    let ghost start = views(out@);
    push_task(out, "postgresql", "data-storage", vec!["postgres", "sql", "relational", "pg"]);
    push_task(out, "mongodb", "data-storage", vec!["mongo", "nosql", "document"]);
    push_task(out, "redis", "data-storage", vec!["redis", "cache", "key-value"]);
    push_task(out, "prisma", "data-storage", vec!["prisma", "orm", "schema"]);
    push_task(out, "sqlite", "data-storage", vec!["sqlite", "local", "embedded"]);
    push_task(out, "supabase", "data-storage", vec!["supabase", "postgres", "auth", "storage"]);
    push_task(out, "pinecone", "data-storage", vec!["pinecone", "vector", "embedding"]);
    push_task(out, "elasticsearch", "data-storage", vec!["elastic", "search", "index"]);
    proof {
        assert(views(out@) =~~= start + storage_tasks());
    }
}

/// Tools of the trade.
pub open spec fn tooling_tasks() -> Seq<TaskGuideView> {
    seq![
        task("git"@, "dev-tool"@, seq!["git"@, "commit"@, "branch"@, "merge"@]),
        task("docker"@, "infra-devops"@, seq!["docker"@, "container"@, "image"@]),
        task("webpack"@, "dev-tool"@, seq!["webpack"@, "bundle"@, "build"@]),
        task("vite"@, "dev-tool"@, seq!["vite"@, "build"@, "dev"@, "hmr"@]),
        task("jest"@, "dev-tool"@, seq!["jest"@, "test"@, "unit"@, "spec"@]),
        task("vitest"@, "dev-tool"@, seq!["vitest"@, "test"@, "vite"@]),
        task("playwright"@, "dev-tool"@, seq!["playwright"@, "e2e"@, "browser"@, "test"@]),
        task("eslint"@, "dev-tool"@, seq!["eslint"@, "lint"@, "format"@]),
    ]
}

fn push_tooling_tasks(out: &mut Vec<TaskGuide>)
    ensures
        views(final(out)@) == views(old(out)@) + tooling_tasks(),
{
    let ghost start = views(out@);
    push_task(out, "git", "dev-tool", vec!["git", "commit", "branch", "merge"]);
    push_task(out, "docker", "infra-devops", vec!["docker", "container", "image"]);
    push_task(out, "webpack", "dev-tool", vec!["webpack", "bundle", "build"]);
    push_task(out, "vite", "dev-tool", vec!["vite", "build", "dev", "hmr"]);
    push_task(out, "jest", "dev-tool", vec!["jest", "test", "unit", "spec"]);
    push_task(out, "vitest", "dev-tool", vec!["vitest", "test", "vite"]);
    push_task(out, "playwright", "dev-tool", vec!["playwright", "e2e", "browser", "test"]);
    push_task(out, "eslint", "dev-tool", vec!["eslint", "lint", "format"]);
    proof {
        assert(views(out@) =~~= start + tooling_tasks());
    }
}

/// Telephones.
pub open spec fn mobile_tasks() -> Seq<TaskGuideView> {
    seq![
        task("react-native"@, "mobile-frontend"@, seq!["react native"@, "mobile"@, "expo"@, "rn"@]),
        task("flutter"@, "mobile-frontend"@, seq!["flutter"@, "dart"@, "mobile"@, "widget"@]),
        task("expo"@, "mobile-frontend"@, seq!["expo"@, "react native"@, "mobile"@]),
        task("swift"@, "mobile-frontend"@, seq!["swift"@, "ios"@, "iphone"@, "swiftui"@]),
        task("kotlin"@, "mobile-frontend"@, seq!["kotlin"@, "android"@, "jetpack"@]),
    ]
}

fn push_mobile_tasks(out: &mut Vec<TaskGuide>)
    ensures
        views(final(out)@) == views(old(out)@) + mobile_tasks(),
{
    let ghost start = views(out@);
    push_task(out, "react-native", "mobile-frontend", vec!["react native", "mobile", "expo", "rn"]);
    push_task(out, "flutter", "mobile-frontend", vec!["flutter", "dart", "mobile", "widget"]);
    push_task(out, "expo", "mobile-frontend", vec!["expo", "react native", "mobile"]);
    push_task(out, "swift", "mobile-frontend", vec!["swift", "ios", "iphone", "swiftui"]);
    push_task(out, "kotlin", "mobile-frontend", vec!["kotlin", "android", "jetpack"]);
    proof {
        assert(views(out@) =~~= start + mobile_tasks());
    }
}

/// Games.
pub open spec fn game_tasks() -> Seq<TaskGuideView> {
    seq![
        task("threejs"@, "game-frontend"@, seq!["threejs"@, "three.js"@, "webgl"@, "3d"@]),
        task("canvas"@, "game-frontend"@, seq!["canvas"@, "html5"@, "2d"@, "drawing"@]),
        task("phaser"@, "game-frontend"@, seq!["phaser"@, "game"@, "html5"@, "2d"@]),
        task("webgl"@, "game-frontend"@, seq!["webgl"@, "shader"@, "gpu"@, "3d"@]),
        task("godot"@, "game-backend"@, seq!["godot"@, "gdscript"@, "game engine"@]),
        task(
            "game-loop"@,
            "game-backend"@,
            seq!["game loop"@, "update"@, "render"@, "fixed timestep"@],
        ),
        task("state-machine"@, "game-backend"@, seq!["state"@, "fsm"@, "transition"@]),
        task("ecs"@, "game-backend"@, seq!["ecs"@, "entity"@, "component"@, "system"@]),
        task("object-pooling"@, "game-backend"@, seq!["pool"@, "reuse"@, "spawn"@, "bullet"@]),
    ]
}

fn push_game_tasks(out: &mut Vec<TaskGuide>)
    ensures
        views(final(out)@) == views(old(out)@) + game_tasks(),
{
    let ghost start = views(out@);
    push_task(out, "threejs", "game-frontend", vec!["threejs", "three.js", "webgl", "3d"]);
    push_task(out, "canvas", "game-frontend", vec!["canvas", "html5", "2d", "drawing"]);
    push_task(out, "phaser", "game-frontend", vec!["phaser", "game", "html5", "2d"]);
    push_task(out, "webgl", "game-frontend", vec!["webgl", "shader", "gpu", "3d"]);
    push_task(out, "godot", "game-backend", vec!["godot", "gdscript", "game engine"]);
    push_task(out, "game-loop", "game-backend", vec!["game loop", "update", "render", "fixed timestep"]);
    push_task(out, "state-machine", "game-backend", vec!["state", "fsm", "transition"]);
    push_task(out, "ecs", "game-backend", vec!["ecs", "entity", "component", "system"]);
    push_task(out, "object-pooling", "game-backend", vec!["pool", "reuse", "spawn", "bullet"]);
    proof {
        assert(views(out@) =~~= start + game_tasks());
    }
}

/// Pictures for games.
pub open spec fn art_tasks() -> Seq<TaskGuideView> {
    seq![
        task(
            "ai-art-generation"@,
            "game-tool"@,
            seq!["ai art"@, "stable diffusion"@, "flux"@, "dalle"@],
        ),
        task("pixel-art"@, "game-design"@, seq!["pixel"@, "sprite"@, "8bit"@, "16bit"@, "retro"@]),
        task("aseprite"@, "game-tool"@, seq!["aseprite"@, "sprite"@, "animation"@]),
        task("spritesheet"@, "game-tool"@, seq!["spritesheet"@, "atlas"@, "texture"@, "export"@]),
        task("background-removal"@, "game-tool"@, seq!["bg remove"@, "transparent"@, "cutout"@]),
        task("image-upscaling"@, "game-tool"@, seq!["upscale"@, "esrgan"@, "hd"@, "4k"@]),
        task("level-design"@, "game-design"@, seq!["level"@, "map"@, "blockout"@, "flow"@]),
        task(
            "character-design"@,
            "game-design"@,
            seq!["character"@, "silhouette"@, "shape language"@],
        ),
        task("texture-art"@, "game-design"@, seq!["texture"@, "pbr"@, "normal map"@, "material"@]),
        task("animation"@, "game-design"@, seq!["animation"@, "walk cycle"@, "frame"@, "sprite"@]),
        task("tileset"@, "game-design"@, seq!["tileset"@, "tile"@, "autotile"@, "seamless"@]),
    ]
}

fn push_art_tasks(out: &mut Vec<TaskGuide>)
    ensures
        views(final(out)@) == views(old(out)@) + art_tasks(),
{
    let ghost start = views(out@);
    push_task(out, "ai-art-generation", "game-tool", vec!["ai art", "stable diffusion", "flux", "dalle"]);
    push_task(out, "pixel-art", "game-design", vec!["pixel", "sprite", "8bit", "16bit", "retro"]);
    push_task(out, "aseprite", "game-tool", vec!["aseprite", "sprite", "animation"]);
    push_task(out, "spritesheet", "game-tool", vec!["spritesheet", "atlas", "texture", "export"]);
    push_task(out, "background-removal", "game-tool", vec!["bg remove", "transparent", "cutout"]);
    push_task(out, "image-upscaling", "game-tool", vec!["upscale", "esrgan", "hd", "4k"]);
    push_task(out, "level-design", "game-design", vec!["level", "map", "blockout", "flow"]);
    push_task(out, "character-design", "game-design", vec!["character", "silhouette", "shape language"]);
    push_task(out, "texture-art", "game-design", vec!["texture", "pbr", "normal map", "material"]);
    push_task(out, "animation", "game-design", vec!["animation", "walk cycle", "frame", "sprite"]);
    push_task(out, "tileset", "game-design", vec!["tileset", "tile", "autotile", "seamless"]);
    proof {
        assert(views(out@) =~~= start + art_tasks());
    }
}

/// Security.
pub open spec fn security_tasks() -> Seq<TaskGuideView> {
    seq![
        task("oauth"@, "app-security"@, seq!["oauth"@, "auth"@, "login"@, "token"@]),
        task("jwt"@, "app-security"@, seq!["jwt"@, "token"@, "authentication"@]),
        task(
            "owasp"@,
            "app-security"@,
            seq!["owasp"@, "security"@, "vulnerability"@, "xss"@, "sql injection"@],
        ),
        task(
            "cryptography"@,
            "app-security"@,
            seq!["crypto"@, "encrypt"@, "hash"@, "ssl"@, "tls"@],
        ),
        task("clerk"@, "app-security"@, seq!["clerk"@, "auth"@, "user management"@]),
    ]
}

fn push_security_tasks(out: &mut Vec<TaskGuide>)
    ensures
        views(final(out)@) == views(old(out)@) + security_tasks(),
{
    let ghost start = views(out@);
    push_task(out, "oauth", "app-security", vec!["oauth", "auth", "login", "token"]);
    push_task(out, "jwt", "app-security", vec!["jwt", "token", "authentication"]);
    push_task(out, "owasp", "app-security", vec!["owasp", "security", "vulnerability", "xss", "sql injection"]);
    push_task(out, "cryptography", "app-security", vec!["crypto", "encrypt", "hash", "ssl", "tls"]);
    push_task(out, "clerk", "app-security", vec!["clerk", "auth", "user management"]);
    proof {
        assert(views(out@) =~~= start + security_tasks());
    }
}

/// Design.
pub open spec fn design_tasks() -> Seq<TaskGuideView> {
    seq![
        task("figma"@, "ui-design"@, seq!["figma"@, "design"@, "prototype"@, "ui"@]),
        task("accessibility"@, "ui-design"@, seq!["a11y"@, "accessibility"@, "wcag"@, "aria"@]),
        task("design-system"@, "ui-design"@, seq!["design system"@, "tokens"@, "components"@]),
    ]
}

fn push_design_tasks(out: &mut Vec<TaskGuide>)
    ensures
        views(final(out)@) == views(old(out)@) + design_tasks(),
{
    let ghost start = views(out@);
    push_task(out, "figma", "ui-design", vec!["figma", "design", "prototype", "ui"]);
    push_task(out, "accessibility", "ui-design", vec!["a11y", "accessibility", "wcag", "aria"]);
    push_task(out, "design-system", "ui-design", vec!["design system", "tokens", "components"]);
    proof {
        assert(views(out@) =~~= start + design_tasks());
    }
}

/// Operations.
pub open spec fn infra_tasks() -> Seq<TaskGuideView> {
    seq![
        task("ci-cd"@, "infra-devops"@, seq!["ci"@, "cd"@, "pipeline"@, "github actions"@]),
        task("kubernetes"@, "infra-devops"@, seq!["k8s"@, "kubernetes"@, "pod"@, "deployment"@]),
        task("aws"@, "infra-devops"@, seq!["aws"@, "s3"@, "lambda"@, "ec2"@]),
        task("vercel"@, "infra-devops"@, seq!["vercel"@, "deploy"@, "edge"@, "serverless"@]),
        task("terraform"@, "infra-devops"@, seq!["terraform"@, "iac"@, "infrastructure"@]),
    ]
}

fn push_infra_tasks(out: &mut Vec<TaskGuide>)
    ensures
        views(final(out)@) == views(old(out)@) + infra_tasks(),
{
    let ghost start = views(out@);
    push_task(out, "ci-cd", "infra-devops", vec!["ci", "cd", "pipeline", "github actions"]);
    push_task(out, "kubernetes", "infra-devops", vec!["k8s", "kubernetes", "pod", "deployment"]);
    push_task(out, "aws", "infra-devops", vec!["aws", "s3", "lambda", "ec2"]);
    push_task(out, "vercel", "infra-devops", vec!["vercel", "deploy", "edge", "serverless"]);
    push_task(out, "terraform", "infra-devops", vec!["terraform", "iac", "infrastructure"]);
    proof {
        assert(views(out@) =~~= start + infra_tasks());
    }
}

/// Languages.
pub open spec fn language_tasks() -> Seq<TaskGuideView> {
    seq![
        task("rust"@, "programming-language"@, seq!["rust"@, "rustlang"@]),
        task("golang"@, "programming-language"@, seq!["go"@, "golang"@]),
        task("java"@, "programming-language"@, seq!["java"@, "jvm"@]),
    ]
}

fn push_language_tasks(out: &mut Vec<TaskGuide>)
    ensures
        views(final(out)@) == views(old(out)@) + language_tasks(),
{
    let ghost start = views(out@);
    push_task(out, "rust", "programming-language", vec!["rust", "rustlang"]);
    push_task(out, "golang", "programming-language", vec!["go", "golang"]);
    push_task(out, "java", "programming-language", vec!["java", "jvm"]);
    proof {
        assert(views(out@) =~~= start + language_tasks());
    }
}

/// All the kinds of tasks, in order.
pub open spec fn task_guides() -> Seq<TaskGuideView> {
    web_tasks() + backend_tasks() + storage_tasks() + tooling_tasks() + mobile_tasks() + game_tasks() + art_tasks() + security_tasks() + design_tasks() + infra_tasks() + language_tasks()
}

/// All the kinds of tasks, in order.
pub fn task_guide_defs() -> (r: Vec<TaskGuide>)
    ensures
        views(r@) == task_guides(),
{
    let mut out: Vec<TaskGuide> = Vec::new();
    push_web_tasks(&mut out);
    push_backend_tasks(&mut out);
    push_storage_tasks(&mut out);
    push_tooling_tasks(&mut out);
    push_mobile_tasks(&mut out);
    push_game_tasks(&mut out);
    push_art_tasks(&mut out);
    push_security_tasks(&mut out);
    push_design_tasks(&mut out);
    push_infra_tasks(&mut out);
    push_language_tasks(&mut out);
    proof {
        assert(views(out@) =~= task_guides());
    }
    out
}

} // verus!
