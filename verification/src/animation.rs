use vstd::prelude::*;

verus! {

/// What the animation of a player is told about the player in one tick.
#[derive(Clone, Copy, PartialEq, Eq, Debug, Structural)]
pub struct PlayerAnimationMachineInput {
    pub walk_forward: bool,
    pub shoot: bool,
    pub jump: bool,
    pub fly: bool,
    pub on_ground: bool,
}

/// Which changes of pose are open in one tick, each named by the pose it leaves
/// and the pose it enters.
#[derive(Clone, Copy, PartialEq, Eq, Debug, Structural)]
pub struct AnimationRules {
    pub idle_to_walk_forward: bool,
    pub idle_to_shoot: bool,
    pub idle_to_jump: bool,
    pub walk_forward_to_jump: bool,
    pub walk_forward_to_idle: bool,
    pub walk_forward_to_shoot: bool,
    pub shoot_to_idle: bool,
    pub shoot_to_walk_forward: bool,
    pub jump_to_idle: bool,
}

impl Default for PlayerAnimationMachineInput {
    fn default() -> (r: Self)
        ensures
            r == PlayerAnimationMachineInput::still(),
    {
        PlayerAnimationMachineInput {
            walk_forward: false,
            shoot: false,
            jump: false,
            fly: false,
            on_ground: false,
        }
    }
}

impl PlayerAnimationMachineInput {
    /// A player that does nothing, in the air.
    pub open spec fn still() -> PlayerAnimationMachineInput {
        PlayerAnimationMachineInput {
            walk_forward: false,
            shoot: false,
            jump: false,
            fly: false,
            on_ground: false,
        }
    }

    /// The changes of pose that are open to a player of whom this is known,
    /// given whether the animation of its last jump has run to its end.
    pub open spec fn spec_rules(self, jump_ended: bool) -> AnimationRules {
        AnimationRules {
            idle_to_walk_forward: self.walk_forward && self.on_ground,
            idle_to_shoot: self.shoot,
            idle_to_jump: self.jump,
            walk_forward_to_jump: self.jump,
            walk_forward_to_idle: !self.walk_forward || self.fly,
            walk_forward_to_shoot: self.shoot,
            shoot_to_idle: !self.shoot && !self.walk_forward,
            shoot_to_walk_forward: !self.shoot && self.walk_forward,
            jump_to_idle: (!self.jump && self.on_ground) || jump_ended,
        }
    }

    /// The changes of pose that are open in this tick.
    #[verifier::when_used_as_spec(spec_rules)]
    pub fn rules(self, jump_ended: bool) -> (r: AnimationRules)
        ensures
            r == self.spec_rules(jump_ended),
    {
        AnimationRules {
            idle_to_walk_forward: self.walk_forward && self.on_ground,
            idle_to_shoot: self.shoot,
            idle_to_jump: self.jump,
            walk_forward_to_jump: self.jump,
            walk_forward_to_idle: !self.walk_forward || self.fly,
            walk_forward_to_shoot: self.shoot,
            shoot_to_idle: !self.shoot && !self.walk_forward,
            shoot_to_walk_forward: !self.shoot && self.walk_forward,
            jump_to_idle: (!self.jump && self.on_ground) || jump_ended,
        }
    }
}

} // verus!
