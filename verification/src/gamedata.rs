//! Everything related to the internal state of the actual scene.

pub mod characters;
pub mod color;
pub mod facetype;
pub mod lock;
pub mod portrait;
pub mod scene;
pub mod screen;
pub mod speed;
pub mod update;
pub mod various;
pub mod vectors;

pub use characters::Chara;
pub use color::Color;
pub use facetype::FaceType;
pub use lock::Lock;
pub use portrait::Portrait;
pub use scene::Scene;
pub use screen::Screen;
pub use speed::Speed;
pub use update::Update;
pub use various::Time;
pub use vectors::{Vec2, Vec3};
