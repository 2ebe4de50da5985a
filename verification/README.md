# Ginger

Software of a small four-wheeled robot: drivers, safety supervision, motion,
exploration, and the visual SLAM frontend, with a web server around it.

`src/` is the library. It holds the decisions and the data they work on, written
in Verus: every function states what it returns, and the proofs are part of the
source. It does no input or output and uses whole numbers throughout
(micrometres, microseconds, thousandths of a degree). Where a picture is scaled or
sampled, and where a reading becomes a percentage, the results are those of
single-precision arithmetic, which `single` carries out in whole numbers.

| module    | what it holds                                                        |
|-----------|----------------------------------------------------------------------|
| `api`     | telemetry, commands, battery charge                                  |
| `hal`     | register protocols of the chips, light strip frames, echo timing     |
| `devices` | motors, pan and tilt                                                 |
| `imu`     | the sample stream of the orientation sensor and its polling          |
| `camera`  | YUYV frames, exposure control, capture gating                        |
| `robot`   | supervisor, timed driving, occupancy grid, frontier exploration      |
| `motion`  | drive mapping, training labels, pose, exploration, motor model rules |
| `slam`    | images, corners, descriptors, matching, the tracking state machine   |
| `video`   | access units, picture conversion, bitrate control                    |
| `marker`  | frame numbers painted into pictures                                  |
| `server`  | stills                                                               |
| `single`  | single-precision rounding of whole numbers                           |
| `math`    | shared whole-number arithmetic                                       |
| `par`     | mapping over a slice on all cores                                    |

`law_...` functions state what holds across several operations.

`app/` is the program: threads, buses, sockets, and whatever is floating point.
`tests/` exercises the library from outside.
